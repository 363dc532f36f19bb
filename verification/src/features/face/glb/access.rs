//! Accessors: where vertex data lies in the binary chunk.

use super::super::json::{item, member, text_is, unsigned, Json};
use crate::bytes::{read_le2, read_le4};
use crate::ieee::F32;
use crate::points::{V2, V3};
use vstd::prelude::*;

verus! {

use super::super::json::{item_of, sub_of, text_of, tree, unsigned_of, Tree};
use crate::bytes::{half_at, word_at};

/// Where the elements of an accessor lie in the binary chunk.
#[derive(Clone, Copy, Debug, PartialEq, Eq, Structural)]
pub struct Access {
    /// Offset of the view and of the accessor in it.
    pub view_offset: u64,
    pub offset: u64,
    pub stride: u64,
    pub count: u64,
    pub component: u64,
    /// Components of one element.
    pub width: u64,
}

pub open spec fn component_size(c: u64) -> Option<u64> {
    if c == 5120 || c == 5121 {
        Some(1)
    } else if c == 5122 || c == 5123 {
        Some(2)
    } else if c == 5125 || c == 5126 {
        Some(4)
    } else {
        None
    }
}

pub open spec fn element_width(t: Option<Seq<char>>) -> Option<u64> {
    if t == Some("SCALAR"@) {
        Some(1)
    } else if t == Some("VEC2"@) {
        Some(2)
    } else if t == Some("VEC3"@) {
        Some(3)
    } else if t == Some("VEC4"@) {
        Some(4)
    } else {
        None
    }
}

pub open spec fn or_zero(v: Option<u64>) -> u64 {
    match v {
        Some(x) => x,
        None => 0,
    }
}

/// Accessor `idx` of a model.
pub open spec fn access_of(json: Option<Tree>, idx: int) -> Option<Access> {
    let acc = item_of(sub_of(json, "accessors"@), idx);
    match (
        unsigned_of(sub_of(acc, "count"@)),
        unsigned_of(sub_of(acc, "componentType"@)),
        element_width(text_of(sub_of(acc, "type"@))),
        unsigned_of(sub_of(acc, "bufferView"@)),
    ) {
        (Some(count), Some(component), Some(width), Some(view)) => match component_size(component) {
            Some(size) => match item_of(sub_of(json, "bufferViews"@), view as int) {
                Some(bv) => Some(
                    Access {
                        view_offset: or_zero(unsigned_of(sub_of(Some(bv), "byteOffset"@))),
                        offset: or_zero(unsigned_of(sub_of(acc, "byteOffset"@))),
                        stride: match unsigned_of(sub_of(Some(bv), "byteStride"@)) {
                            Some(s) => s,
                            None => (size * width) as u64,
                        },
                        count,
                        component,
                        width,
                    },
                ),
                None => None,
            },
            None => None,
        },
        _ => None,
    }
}

fn width_of(j: Option<&Json>) -> (r: Option<u64>)
    ensures
        r == element_width(text_of(tree(j))),
{
    if text_is(j, "SCALAR") {
        Some(1)
    } else if text_is(j, "VEC2") {
        Some(2)
    } else if text_is(j, "VEC3") {
        Some(3)
    } else if text_is(j, "VEC4") {
        Some(4)
    } else {
        None
    }
}

fn size_of_component(c: u64) -> (r: Option<u64>)
    ensures
        r == component_size(c),
        r matches Some(s) ==> s <= 4,
{
    if c == 5120 || c == 5121 {
        Some(1)
    } else if c == 5122 || c == 5123 {
        Some(2)
    } else if c == 5125 || c == 5126 {
        Some(4)
    } else {
        None
    }
}

/// Looks up an accessor.
pub fn accessor(json: &Json, idx: u64) -> (r: Option<Access>)
    ensures
        r == access_of(Some(json@), idx as int),
{
    let acc = item(member(Some(json), "accessors"), idx);
    let count: u64 = match unsigned(member(acc, "count")) {
        Some(v) => v,
        None => {
            return None;
        },
    };
    let component: u64 = match unsigned(member(acc, "componentType")) {
        Some(v) => v,
        None => {
            return None;
        },
    };
    let width: u64 = match width_of(member(acc, "type")) {
        Some(v) => v,
        None => {
            return None;
        },
    };
    let view: u64 = match unsigned(member(acc, "bufferView")) {
        Some(v) => v,
        None => {
            return None;
        },
    };
    let size: u64 = match size_of_component(component) {
        Some(v) => v,
        None => {
            return None;
        },
    };
    let bv = item(member(Some(json), "bufferViews"), view);
    if bv.is_none() {
        return None;
    }
    let view_offset: u64 = match unsigned(member(bv, "byteOffset")) {
        Some(v) => v,
        None => 0,
    };
    let offset: u64 = match unsigned(member(acc, "byteOffset")) {
        Some(v) => v,
        None => 0,
    };
    assert(size * width <= 16) by (nonlinear_arith)
        requires
            size <= 4,
            width <= 4,
            size >= 0,
            width >= 0,
    ;
    let stride: u64 = match unsigned(member(bv, "byteStride")) {
        Some(v) => v,
        None => size * width,
    };
    Some(Access { view_offset, offset, stride, count, component, width })
}

impl Access {
    /// Byte position of element `i`.
    pub open spec fn at(self, i: int) -> int {
        self.view_offset + self.offset + i * self.stride
    }

    /// How many elements of `need` bytes lie inside `len` bytes before the first
    /// that does not.
    pub open spec fn readable(self, need: int, len: int) -> int {
        let first = self.view_offset + self.offset;
        if first + need > len {
            0
        } else if self.stride == 0 {
            self.count as int
        } else {
            let n = (len - need - first) / self.stride as int + 1;
            if n <= self.count { n } else { self.count as int }
        }
    }
}

proof fn lemma_readable(a: Access, need: int, len: int, i: int)
    requires
        need >= 1,
        0 <= i <= a.count,
    ensures
        0 <= a.readable(need, len) <= a.count,
        i < a.readable(need, len) ==> a.at(i) + need <= len,
        i == a.readable(need, len) && i < a.count ==> a.at(i) + need > len,
{
    let first = a.view_offset + a.offset;
    let s = a.stride as int;
    if first + need <= len {
        if s > 0 {
            let room = len - need - first;
            let q = room / s;
            assert(q >= 0 && q * s <= room && room < (q + 1) * s) by (nonlinear_arith)
                requires
                    q == room / s,
                    s >= 1,
                    room >= 0,
            ;
            if i <= q {
                assert(i * s <= q * s) by (nonlinear_arith)
                    requires
                        0 <= i <= q,
                        s >= 1,
                ;
            } else {
                assert(i * s >= (q + 1) * s) by (nonlinear_arith)
                    requires
                        i >= q + 1,
                        s >= 1,
                ;
            }
        } else {
            assert(i * s == 0) by (nonlinear_arith)
                requires
                    s == 0,
            ;
        }
    } else {
        assert(i * s >= 0) by (nonlinear_arith)
            requires
                i >= 0,
                s >= 0,
        ;
    }
}

/// Byte position of element `i`, if `need` bytes from it on are inside the
/// chunk.
fn position(a: &Access, i: u64, need: usize, len: usize) -> (r: Option<usize>)
    ensures
        match r {
            Some(p) => p == a.at(i as int) && p + need <= len,
            None => a.at(i as int) + need > len,
        },
{
    proof {
        let (x, y) = (i as int, a.stride as int);
        assert(0 <= x * y <= 0xffff_ffff_ffff_ffff * 0xffff_ffff_ffff_ffff) by (nonlinear_arith)
            requires
                0 <= x <= 0xffff_ffff_ffff_ffff,
                0 <= y <= 0xffff_ffff_ffff_ffff,
        ;
    }
    let step: u128 = i as u128 * a.stride as u128;
    let base: u128 = a.view_offset as u128 + a.offset as u128 + need as u128;
    if step > len as u128 || base > len as u128 - step {
        return None;
    }
    let p: u128 = step + a.view_offset as u128 + a.offset as u128;
    Some(p as usize)
}

pub open spec fn word32(b: Seq<u8>, p: int) -> F32 {
    F32 { bits: word_at(b, p) as u32 }
}

/// The vectors of three that accessor `idx` stores: nothing unless it holds
/// single-precision vectors of at least three.
pub open spec fn vec3_of(json: Option<Tree>, bin: Seq<u8>, idx: int) -> Seq<V3> {
    match access_of(json, idx) {
        Some(a) => if a.component != 5126 || a.width < 3 {
            Seq::empty()
        } else {
            Seq::new(
                a.readable(12, bin.len() as int) as nat,
                |i: int|
                    V3 {
                        x: word32(bin, a.at(i)),
                        y: word32(bin, a.at(i) + 4),
                        z: word32(bin, a.at(i) + 8),
                    },
            )
        },
        None => Seq::empty(),
    }
}

pub open spec fn vec2_of(json: Option<Tree>, bin: Seq<u8>, idx: int) -> Seq<V2> {
    match access_of(json, idx) {
        Some(a) => if a.component != 5126 || a.width < 2 {
            Seq::empty()
        } else {
            Seq::new(
                a.readable(8, bin.len() as int) as nat,
                |i: int| V2 { x: word32(bin, a.at(i)), y: word32(bin, a.at(i) + 4) },
            )
        },
        None => Seq::empty(),
    }
}

/// Bytes of one index; none for a component type that is no index.
pub open spec fn index_size(component: u64) -> Option<int> {
    if component == 5121 {
        Some(1)
    } else if component == 5123 {
        Some(2)
    } else if component == 5125 {
        Some(4)
    } else {
        None
    }
}

pub open spec fn index_at(component: u64, b: Seq<u8>, p: int) -> u32 {
    if component == 5121 {
        b[p] as u32
    } else if component == 5123 {
        half_at(b, p) as u32
    } else {
        word_at(b, p) as u32
    }
}

pub open spec fn indices_of(json: Option<Tree>, bin: Seq<u8>, idx: int) -> Seq<u32> {
    match access_of(json, idx) {
        Some(a) => match index_size(a.component) {
            Some(n) => Seq::new(
                a.readable(n, bin.len() as int) as nat,
                |i: int| index_at(a.component, bin, a.at(i)),
            ),
            None => Seq::empty(),
        },
        None => Seq::empty(),
    }
}

pub fn read_vec3(json: &Json, bin: &[u8], idx: u64) -> (r: Vec<V3>)
    ensures
        r@ == vec3_of(Some(json@), bin@, idx as int),
{
    let mut out: Vec<V3> = Vec::new();
    let a: Access = match accessor(json, idx) {
        Some(a) => a,
        None => {
            assert(out@ =~= vec3_of(Some(json@), bin@, idx as int));
            return out;
        },
    };
    if a.component != 5126 || a.width < 3 {
        assert(out@ =~= vec3_of(Some(json@), bin@, idx as int));
        return out;
    }
    let ghost want = vec3_of(Some(json@), bin@, idx as int);
    let mut i: u64 = 0;
    let mut more = true;
    proof {
        lemma_readable(a, 12, bin@.len() as int, 0);
        assert(out@ =~= want.take(0));
    }
    while i < a.count && more
        invariant
            i <= a.count,
            want == vec3_of(Some(json@), bin@, idx as int),
            access_of(Some(json@), idx as int) == Some(a),
            a.component == 5126,
            a.width >= 3,
            i <= want.len(),
            want.len() == a.readable(12, bin@.len() as int),
            out@ == want.take(i as int),
            !more ==> i == want.len(),
        decreases a.count - i, (if more { 1int } else { 0int }),
    {
        proof {
            lemma_readable(a, 12, bin@.len() as int, i as int);
        }
        match position(&a, i, 12, bin.len()) {
            Some(p) => {
                out.push(
                    V3 {
                        x: F32 { bits: read_le4(bin, p) },
                        y: F32 { bits: read_le4(bin, p + 4) },
                        z: F32 { bits: read_le4(bin, p + 8) },
                    },
                );
                i += 1;
                assert(out@ =~= want.take(i as int));
            },
            None => {
                more = false;
            },
        }
    }
    proof {
        lemma_readable(a, 12, bin@.len() as int, i as int);
        assert(out@ =~= want);
    }
    out
}

pub fn read_vec2(json: &Json, bin: &[u8], idx: u64) -> (r: Vec<V2>)
    ensures
        r@ == vec2_of(Some(json@), bin@, idx as int),
{
    let mut out: Vec<V2> = Vec::new();
    let a: Access = match accessor(json, idx) {
        Some(a) => a,
        None => {
            assert(out@ =~= vec2_of(Some(json@), bin@, idx as int));
            return out;
        },
    };
    if a.component != 5126 || a.width < 2 {
        assert(out@ =~= vec2_of(Some(json@), bin@, idx as int));
        return out;
    }
    let ghost want = vec2_of(Some(json@), bin@, idx as int);
    let mut i: u64 = 0;
    let mut more = true;
    proof {
        lemma_readable(a, 8, bin@.len() as int, 0);
        assert(out@ =~= want.take(0));
    }
    while i < a.count && more
        invariant
            i <= a.count,
            want == vec2_of(Some(json@), bin@, idx as int),
            access_of(Some(json@), idx as int) == Some(a),
            a.component == 5126,
            a.width >= 2,
            i <= want.len(),
            want.len() == a.readable(8, bin@.len() as int),
            out@ == want.take(i as int),
            !more ==> i == want.len(),
        decreases a.count - i, (if more { 1int } else { 0int }),
    {
        proof {
            lemma_readable(a, 8, bin@.len() as int, i as int);
        }
        match position(&a, i, 8, bin.len()) {
            Some(p) => {
                out.push(
                    V2 {
                        x: F32 { bits: read_le4(bin, p) },
                        y: F32 { bits: read_le4(bin, p + 4) },
                    },
                );
                i += 1;
                assert(out@ =~= want.take(i as int));
            },
            None => {
                more = false;
            },
        }
    }
    proof {
        lemma_readable(a, 8, bin@.len() as int, i as int);
        assert(out@ =~= want);
    }
    out
}

pub fn read_indices(json: &Json, bin: &[u8], idx: u64) -> (r: Vec<u32>)
    ensures
        r@ == indices_of(Some(json@), bin@, idx as int),
{
    let mut out: Vec<u32> = Vec::new();
    let a: Access = match accessor(json, idx) {
        Some(a) => a,
        None => {
            assert(out@ =~= indices_of(Some(json@), bin@, idx as int));
            return out;
        },
    };
    let need: usize = if a.component == 5121 {
        1
    } else if a.component == 5123 {
        2
    } else if a.component == 5125 {
        4
    } else {
        assert(out@ =~= indices_of(Some(json@), bin@, idx as int));
        return out;
    };
    let ghost want = indices_of(Some(json@), bin@, idx as int);
    let mut i: u64 = 0;
    let mut more = true;
    proof {
        lemma_readable(a, need as int, bin@.len() as int, 0);
        assert(out@ =~= want.take(0));
    }
    while i < a.count && more
        invariant
            i <= a.count,
            want == indices_of(Some(json@), bin@, idx as int),
            access_of(Some(json@), idx as int) == Some(a),
            index_size(a.component) == Some(need as int),
            1 <= need <= 4,
            i <= want.len(),
            want.len() == a.readable(need as int, bin@.len() as int),
            out@ == want.take(i as int),
            !more ==> i == want.len(),
        decreases a.count - i, (if more { 1int } else { 0int }),
    {
        proof {
            lemma_readable(a, need as int, bin@.len() as int, i as int);
        }
        match position(&a, i, need, bin.len()) {
            Some(p) => {
                let v: u32 = if a.component == 5121 {
                    bin[p] as u32
                } else if a.component == 5123 {
                    read_le2(bin, p)
                } else {
                    read_le4(bin, p)
                };
                out.push(v);
                i += 1;
                assert(out@ =~= want.take(i as int));
            },
            None => {
                more = false;
            },
        }
    }
    proof {
        lemma_readable(a, need as int, bin@.len() as int, i as int);
        assert(out@ =~= want);
    }
    out
}

/// The bytes of image `idx`: those of its view, where the view names its length
/// and lies inside the chunk.
pub open spec fn image_range(json: Option<Tree>, bin_len: int, idx: int) -> Option<(int, int)> {
    let img = item_of(sub_of(json, "images"@), idx);
    match unsigned_of(sub_of(img, "bufferView"@)) {
        Some(v) => {
            let bv = item_of(sub_of(json, "bufferViews"@), v as int);
            let off = or_zero(unsigned_of(sub_of(bv, "byteOffset"@)));
            match unsigned_of(sub_of(bv, "byteLength"@)) {
                Some(n) => if off + n <= bin_len {
                    Some((off as int, off + n))
                } else {
                    None
                },
                None => None,
            }
        },
        None => None,
    }
}

pub fn image_bytes(json: &Json, bin: &[u8], idx: u64) -> (r: Option<Vec<u8>>)
    ensures
        match r {
            Some(v) => image_range(Some(json@), bin@.len() as int, idx as int) matches Some(p)
                && v@ == bin@.subrange(p.0, p.1),
            None => image_range(Some(json@), bin@.len() as int, idx as int) is None,
        },
{
    let img = item(member(Some(json), "images"), idx);
    let view: u64 = match unsigned(member(img, "bufferView")) {
        Some(v) => v,
        None => {
            return None;
        },
    };
    let bv = item(member(Some(json), "bufferViews"), view);
    let off: u64 = match unsigned(member(bv, "byteOffset")) {
        Some(v) => v,
        None => 0,
    };
    let n: u64 = match unsigned(member(bv, "byteLength")) {
        Some(v) => v,
        None => {
            return None;
        },
    };
    let end: u128 = off as u128 + n as u128;
    if end > bin.len() as u128 {
        return None;
    }
    Some(crate::slices::part(bin, off as usize, end as usize))
}

/// An accessor never reads outside the binary chunk.
pub proof fn law_accessor_stays_inside(a: Access, need: int, len: int, i: int)
    requires
        need >= 1,
        0 <= i < a.readable(need, len),
    ensures
        0 <= a.at(i),
        a.at(i) + need <= len,
{
    lemma_readable(a, need, len, i);
    let (x, y) = (i, a.stride as int);
    assert(x * y >= 0) by (nonlinear_arith)
        requires
            x >= 0,
            y >= 0,
    ;
}

} // verus!
