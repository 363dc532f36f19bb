//! A parsed JSON text and how it is read.

use crate::ieee::F64;
use crate::names::same_text;
use vstd::prelude::*;

verus! {

/// A number in each of the readings that a caller may ask for.
#[derive(Clone, Copy, Debug, PartialEq, Eq, Structural)]
pub struct JsonNum {
    /// The number as an unsigned integer, where it was written as one.
    pub unsigned: Option<u64>,
    /// The number as a signed integer, where it was written as one.
    pub signed: Option<i64>,
    /// The nearest double.
    pub double: Option<F64>,
}

/// A parsed value.
pub enum Json {
    Null,
    Bool(bool),
    Num(JsonNum),
    Str(String),
    Arr(Vec<Json>),
    /// Members, each name once.
    Obj(Vec<(String, Json)>),
}

/// A parsed value as a mathematical tree.
pub enum Tree {
    Null,
    Bool(bool),
    Num(JsonNum),
    Str(Seq<char>),
    Arr(Seq<Tree>),
    Obj(Seq<(Seq<char>, Tree)>),
}

impl Json {
    pub open spec fn view(&self) -> Tree
        decreases self,
    {
        match self {
            Json::Null => Tree::Null,
            Json::Bool(b) => Tree::Bool(*b),
            Json::Num(n) => Tree::Num(*n),
            Json::Str(s) => Tree::Str(s@),
            Json::Arr(v) => Tree::Arr(
                Seq::new(
                    v@.len(),
                    |i: int| if 0 <= i < v@.len() { v@[i].view() } else { Tree::Null },
                ),
            ),
            Json::Obj(v) => Tree::Obj(
                Seq::new(
                    v@.len(),
                    |i: int|
                        if 0 <= i < v@.len() { (v@[i].0@, v@[i].1.view()) } else {
                            (Seq::empty(), Tree::Null)
                        },
                ),
            ),
        }
    }
}

/// The member `key` among those from `from` on.
pub open spec fn find_member(s: Seq<(Seq<char>, Tree)>, key: Seq<char>, from: int) -> Option<Tree>
    decreases s.len() - from,
{
    if from < 0 || from >= s.len() {
        None
    } else if s[from].0 == key {
        Some(s[from].1)
    } else {
        find_member(s, key, from + 1)
    }
}

/// The member `key` of an object; nothing of anything else.
pub open spec fn sub_of(t: Option<Tree>, key: Seq<char>) -> Option<Tree> {
    match t {
        Some(Tree::Obj(s)) => find_member(s, key, 0),
        _ => None,
    }
}

/// Item `i` of an array; nothing of anything else.
pub open spec fn item_of(t: Option<Tree>, i: int) -> Option<Tree> {
    match t {
        Some(Tree::Arr(s)) => if 0 <= i < s.len() {
            Some(s[i])
        } else {
            None
        },
        _ => None,
    }
}

pub open spec fn unsigned_of(t: Option<Tree>) -> Option<u64> {
    match t {
        Some(Tree::Num(n)) => n.unsigned,
        _ => None,
    }
}

pub open spec fn double_of(t: Option<Tree>) -> Option<F64> {
    match t {
        Some(Tree::Num(n)) => n.double,
        _ => None,
    }
}

pub open spec fn text_of(t: Option<Tree>) -> Option<Seq<char>> {
    match t {
        Some(Tree::Str(s)) => Some(s),
        _ => None,
    }
}

pub open spec fn truth_of(t: Option<Tree>) -> Option<bool> {
    match t {
        Some(Tree::Bool(b)) => Some(b),
        _ => None,
    }
}

pub open spec fn items_of(t: Option<Tree>) -> Option<Seq<Tree>> {
    match t {
        Some(Tree::Arr(s)) => Some(s),
        _ => None,
    }
}

/// The tree behind an optional reference.
pub open spec fn tree(j: Option<&Json>) -> Option<Tree> {
    match j {
        Some(v) => Some(v@),
        None => None,
    }
}

pub open spec fn trees(v: Seq<Json>) -> Seq<Tree> {
    Seq::new(v.len(), |i: int| v[i]@)
}

pub proof fn lemma_items(v: Vec<Json>)
    ensures
        Json::Arr(v)@ == Tree::Arr(trees(v@)),
{
    reveal_with_fuel(Json::view, 2);
    let t = Json::Arr(v)@;
    assert(t->Arr_0 =~= trees(v@));
}

pub fn member<'a>(j: Option<&'a Json>, key: &str) -> (r: Option<&'a Json>)
    ensures
        tree(r) == sub_of(tree(j), key@),
{
    match j {
        Some(Json::Obj(v)) => {
            let ghost s = j->Some_0@->Obj_0;
            let mut i: usize = 0;
            while i < v.len()
                invariant
                    i <= v@.len(),
                    j == Some(&Json::Obj(*v)),
                    s == Json::Obj(*v)@->Obj_0,
                    s.len() == v@.len(),
                    find_member(s, key@, 0) == find_member(s, key@, i as int),
                decreases v@.len() - i,
            {
                assert(s[i as int] == (v@[i as int].0@, v@[i as int].1@));
                if same_text(v[i].0.as_str(), key) {
                    return Some(&v[i].1);
                }
                i += 1;
            }
            None
        },
        _ => None,
    }
}

pub fn item<'a>(j: Option<&'a Json>, i: u64) -> (r: Option<&'a Json>)
    ensures
        tree(r) == item_of(tree(j), i as int),
{
    match j {
        Some(Json::Arr(v)) => {
            proof {
                lemma_items(*v);
            }
            if i < v.len() as u64 {
                Some(&v[i as usize])
            } else {
                None
            }
        },
        _ => None,
    }
}

pub fn items<'a>(j: Option<&'a Json>) -> (r: Option<&'a Vec<Json>>)
    ensures
        match r {
            Some(v) => items_of(tree(j)) == Some(trees(v@)),
            None => items_of(tree(j)) is None,
        },
{
    match j {
        Some(Json::Arr(v)) => {
            proof {
                lemma_items(*v);
            }
            Some(v)
        },
        _ => None,
    }
}

pub fn unsigned(j: Option<&Json>) -> (r: Option<u64>)
    ensures
        r == unsigned_of(tree(j)),
{
    match j {
        Some(Json::Num(n)) => n.unsigned,
        _ => None,
    }
}

pub fn double(j: Option<&Json>) -> (r: Option<F64>)
    ensures
        r == double_of(tree(j)),
{
    match j {
        Some(Json::Num(n)) => n.double,
        _ => None,
    }
}

pub fn truth(j: Option<&Json>) -> (r: Option<bool>)
    ensures
        r == truth_of(tree(j)),
{
    match j {
        Some(Json::Bool(b)) => Some(*b),
        _ => None,
    }
}

pub fn text_is(j: Option<&Json>, s: &str) -> (r: bool)
    ensures
        r == (text_of(tree(j)) == Some(s@)),
{
    match j {
        Some(Json::Str(t)) => same_text(t.as_str(), s),
        _ => false,
    }
}

/// The value type of the JSON crate, carried from its parser to the conversion.
#[verifier::external_type_specification]
#[verifier::external_body]
pub struct ExValue(serde_json::Value);

/// The tree that a value of the JSON crate holds.
pub uninterp spec fn value_tree(v: serde_json::Value) -> Tree;

/// The tree that `serde_json::from_slice` reads from a text, if it is one.
pub uninterp spec fn parsed_json(text: Seq<u8>) -> Option<Tree>;

/// Calls `serde_json::from_slice` for a value. What it accepts and the tree that
/// it reads are functions of the bytes alone. Nothing is stated of the message
/// of a text that it refuses.
#[verifier::external_body]
fn value_from_slice(text: &[u8]) -> (r: Result<serde_json::Value, String>)
    ensures
        match r {
            Ok(v) => parsed_json(text@) == Some(value_tree(v)),
            Err(_) => parsed_json(text@) is None,
        },
{
    serde_json::from_slice::<serde_json::Value>(text).map_err(|e| e.to_string())
}

/// Rewrites a `serde_json::Value` variant by variant; numbers keep what
/// `Number::as_u64`, `Number::as_i64` and `Number::as_f64` say of them.
#[verifier::external_body]
fn json_of_value(v: serde_json::Value) -> (r: Json)
    ensures
        r@ == value_tree(v),
{
    match v {
        serde_json::Value::Null => Json::Null,
        serde_json::Value::Bool(b) => Json::Bool(b),
        serde_json::Value::Number(n) => Json::Num(JsonNum {
            unsigned: n.as_u64(),
            signed: n.as_i64(),
            double: n.as_f64().map(|x| F64 { bits: x.to_bits() }),
        }),
        serde_json::Value::String(s) => Json::Str(s),
        serde_json::Value::Array(a) => Json::Arr(a.into_iter().map(json_of_value).collect()),
        serde_json::Value::Object(o) =>
            Json::Obj(o.into_iter().map(|(k, x)| (k, json_of_value(x))).collect()),
    }
}

/// Parses a JSON text.
pub fn parse_json(text: &[u8]) -> (r: Result<Json, String>)
    ensures
        match r {
            Ok(j) => parsed_json(text@) == Some(j@),
            Err(_) => parsed_json(text@) is None,
        },
{
    match value_from_slice(text) {
        Ok(v) => Ok(json_of_value(v)),
        Err(e) => Err(e),
    }
}

} // verus!
