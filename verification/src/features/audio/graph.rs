//! A graph of tensor operators and its execution.

use super::error::OpError;
use super::tens::Tens;
use crate::ieee::F32;
use crate::names::NameMap;
use vstd::prelude::*;

verus! {

use super::error::OpView;
use super::slicing::opt_seq;

/// One attribute of a node, in each of the readings that an operator may ask
/// for.
pub struct AttrVal<T> {
    /// The value as an integer.
    pub int: Option<i64>,
    /// The value as a list: the integers in it.
    pub ints: Option<Vec<i64>>,
    /// The value as an element.
    pub num: Option<T>,
}

pub struct IoDecl {
    pub name: String,
    pub shape: Vec<usize>,
}

pub struct NodeDecl<T> {
    pub op: String,
    pub name: String,
    pub inputs: Vec<String>,
    pub outputs: Vec<String>,
    pub attrs: NameMap<AttrVal<T>>,
}

/// A constant tensor: its shape, and where its elements start in the weights,
/// counted in elements.
pub struct ConstF32 {
    pub name: String,
    pub shape: Vec<usize>,
    pub offset: usize,
    pub len: usize,
}

/// Constants of the steps before and after the graph.
#[derive(Clone, Copy, Debug)]
pub struct PrePost {
    pub n_fft: usize,
    pub hop: usize,
    pub alpha: F32,
    pub beta: F32,
    pub clip_min: F32,
}

pub struct Manifest<T> {
    pub inputs: Vec<IoDecl>,
    pub outputs: Vec<String>,
    pub nodes: Vec<NodeDecl<T>>,
    pub consts_f32: Vec<ConstF32>,
    pub consts_int: NameMap<Vec<i64>>,
    pub pre_post: PrePost,
}

pub struct FeGraph<T> {
    pub nodes: Vec<NodeDecl<T>>,
    pub consts: NameMap<Tens<T>>,
    pub ints: NameMap<Vec<i64>>,
    /// How often each tensor is consumed; a graph output counts as one use.
    pub uses: NameMap<usize>,
    pub inputs: Vec<IoDecl>,
    pub outputs: Vec<String>,
    pub pre_post: PrePost,
}

/// Why a node could not run.
#[derive(Clone, Debug, PartialEq, Eq)]
pub enum Fault {
    /// No tensor under the name of this operand.
    MissingTensor(usize),
    /// No integer constant under the name of this operand.
    MissingInts(usize),
    /// The operator refused its operands.
    Op(OpError),
    /// The operand has no such shape.
    Reshape(OpError),
    /// A transpose without a permutation.
    NoPerm,
    /// A squeezed dimension is not one.
    SqueezeAxis(usize),
    /// A convolution in groups.
    Group,
    /// The operator is not one of those the graph knows.
    Unsupported,
    /// The node lacks an operand, its operands are of sizes beyond a machine word,
    /// or its attributes do not fit them.
    Unfit,
}

/// What a fault holds.
pub enum FaultView {
    MissingTensor(usize),
    MissingInts(usize),
    Op(OpView),
    Reshape(OpView),
    NoPerm,
    SqueezeAxis(usize),
    Group,
    Unsupported,
    Unfit,
}

impl View for Fault {
    type V = FaultView;

    open spec fn view(&self) -> FaultView {
        match *self {
            Fault::MissingTensor(i) => FaultView::MissingTensor(i),
            Fault::MissingInts(i) => FaultView::MissingInts(i),
            Fault::Op(e) => FaultView::Op(e@),
            Fault::Reshape(e) => FaultView::Reshape(e@),
            Fault::NoPerm => FaultView::NoPerm,
            Fault::SqueezeAxis(d) => FaultView::SqueezeAxis(d),
            Fault::Group => FaultView::Group,
            Fault::Unsupported => FaultView::Unsupported,
            Fault::Unfit => FaultView::Unfit,
        }
    }
}

/// Why a run stopped.
#[derive(Clone, Debug, PartialEq, Eq)]
pub enum RunError {
    /// This input, of this shape, has not the declared number of elements.
    InputSize(usize, Vec<usize>),
    /// This node could not run.
    Node(usize, Fault),
    /// No tensor under the name of this output.
    MissingOutput(usize),
}

pub type Env<T> = Map<Seq<char>, Tens<T>>;

// ---- attributes ----

pub open spec fn attr_int<T>(n: &NodeDecl<T>, key: Seq<char>, default: i64) -> i64 {
    if n.attrs@.contains_key(key) && n.attrs@[key].int is Some {
        n.attrs@[key].int->Some_0
    } else {
        default
    }
}

pub open spec fn attr_list<T>(n: &NodeDecl<T>, key: Seq<char>) -> Option<Seq<i64>> {
    if n.attrs@.contains_key(key) && n.attrs@[key].ints is Some {
        Some(n.attrs@[key].ints->Some_0@)
    } else {
        None
    }
}

pub open spec fn attr_num<T>(n: &NodeDecl<T>, key: Seq<char>, default: T) -> T {
    if n.attrs@.contains_key(key) && n.attrs@[key].num is Some {
        n.attrs@[key].num->Some_0
    } else {
        default
    }
}

pub fn attr_i64<T>(n: &NodeDecl<T>, key: &str, default: i64) -> (r: i64)
    ensures
        r == attr_int(n, key@, default),
{
    match n.attrs.get(key) {
        Some(v) => match v.int {
            Some(i) => i,
            None => default,
        },
        None => default,
    }
}

pub fn attr_ints<'a, T>(n: &'a NodeDecl<T>, key: &str) -> (r: Option<&'a Vec<i64>>)
    ensures
        match r {
            Some(v) => attr_list(n, key@) == Some(v@),
            None => attr_list(n, key@) is None,
        },
{
    match n.attrs.get(key) {
        Some(v) => match &v.ints {
            Some(l) => Some(l),
            None => None,
        },
        None => None,
    }
}

pub fn attr_f32<T: Copy>(n: &NodeDecl<T>, key: &str, default: T) -> (r: T)
    ensures
        r == attr_num(n, key@, default),
{
    match n.attrs.get(key) {
        Some(v) => match v.num {
            Some(x) => x,
            None => default,
        },
        None => default,
    }
}

// ---- operands ----

/// The tensor under a name: a computed one before a constant.
pub open spec fn tensor_of<T: Copy>(g: &FeGraph<T>, env: Env<T>, name: Seq<char>) -> Option<Tens<T>> {
    if env.contains_key(name) {
        Some(env[name])
    } else if g.consts@.contains_key(name) {
        Some(g.consts@[name])
    } else {
        None
    }
}

pub open spec fn need_tensor<T: Copy>(
    g: &FeGraph<T>,
    n: &NodeDecl<T>,
    env: Env<T>,
    i: int,
) -> Result<Tens<T>, FaultView> {
    if i >= n.inputs@.len() {
        Err(FaultView::Unfit)
    } else {
        match tensor_of(g, env, n.inputs@[i]@) {
            Some(t) => Ok(t),
            None => Err(FaultView::MissingTensor(i as usize)),
        }
    }
}

pub open spec fn given<T>(n: &NodeDecl<T>, i: int) -> bool {
    i < n.inputs@.len() && n.inputs@[i]@.len() > 0
}

pub open spec fn may_tensor<T: Copy>(
    g: &FeGraph<T>,
    n: &NodeDecl<T>,
    env: Env<T>,
    i: int,
) -> Result<Option<Tens<T>>, FaultView> {
    if given(n, i) {
        match need_tensor(g, n, env, i) {
            Ok(t) => Ok(Some(t)),
            Err(e) => Err(e),
        }
    } else {
        Ok(None)
    }
}

pub open spec fn need_ints<T: Copy>(g: &FeGraph<T>, n: &NodeDecl<T>, i: int) -> Result<
    Seq<i64>,
    FaultView,
> {
    if i >= n.inputs@.len() {
        Err(FaultView::Unfit)
    } else if g.ints@.contains_key(n.inputs@[i]@) {
        Ok(g.ints@[n.inputs@[i]@]@)
    } else {
        Err(FaultView::MissingInts(i as usize))
    }
}

pub open spec fn may_ints<T: Copy>(g: &FeGraph<T>, n: &NodeDecl<T>, i: int) -> Result<
    Option<Seq<i64>>,
    FaultView,
> {
    if given(n, i) {
        match need_ints(g, n, i) {
            Ok(v) => Ok(Some(v)),
            Err(e) => Err(e),
        }
    } else {
        Ok(None)
    }
}

/// The tensor behind an optional reference.
pub open spec fn opt_tens<T>(v: Option<&Tens<T>>) -> Option<Tens<T>> {
    match v {
        Some(t) => Some(*t),
        None => None,
    }
}

impl<T: Copy> FeGraph<T> {
    pub fn get<'a>(&'a self, env: &'a NameMap<Tens<T>>, name: &str) -> (r: Option<&'a Tens<T>>)
        ensures
            match r {
                Some(t) => tensor_of(self, env@, name@) == Some(*t),
                None => tensor_of(self, env@, name@) is None,
            },
    {
        match env.get(name) {
            Some(t) => Some(t),
            None => self.consts.get(name),
        }
    }

    pub fn operand<'a>(&'a self, n: &NodeDecl<T>, env: &'a NameMap<Tens<T>>, i: usize) -> (r: Result<
        &'a Tens<T>,
        Fault,
    >)
        ensures
            match r {
                Ok(t) => need_tensor(self, n, env@, i as int) == Ok::<Tens<T>, FaultView>(*t),
                Err(e) => need_tensor(self, n, env@, i as int) == Err::<Tens<T>, FaultView>(e@),
            },
    {
        if i >= n.inputs.len() {
            return Err(Fault::Unfit);
        }
        match self.get(env, n.inputs[i].as_str()) {
            Some(t) => Ok(t),
            None => Err(Fault::MissingTensor(i)),
        }
    }

    pub fn opt_operand<'a>(&'a self, n: &NodeDecl<T>, env: &'a NameMap<Tens<T>>, i: usize) -> (r: Result<
        Option<&'a Tens<T>>,
        Fault,
    >)
        ensures
            match r {
                Ok(t) => may_tensor(self, n, env@, i as int) == Ok::<Option<Tens<T>>, FaultView>(
                    opt_tens(t),
                ),
                Err(e) => may_tensor(self, n, env@, i as int) == Err::<Option<Tens<T>>, FaultView>(e@),
            },
    {
        if i < n.inputs.len() && !n.inputs[i].as_str().is_empty() {
            match self.operand(n, env, i) {
                Ok(t) => Ok(Some(t)),
                Err(e) => Err(e),
            }
        } else {
            Ok(None)
        }
    }

    pub fn get_ints(&self, name: &str) -> (r: Option<&Vec<i64>>)
        ensures
            match r {
                Some(v) => self.ints@.contains_key(name@) && *v == self.ints@[name@],
                None => !self.ints@.contains_key(name@),
            },
    {
        self.ints.get(name)
    }

    pub fn int_operand(&self, n: &NodeDecl<T>, i: usize) -> (r: Result<&Vec<i64>, Fault>)
        ensures
            match r {
                Ok(v) => need_ints(self, n, i as int) == Ok::<Seq<i64>, FaultView>(v@),
                Err(e) => need_ints(self, n, i as int) == Err::<Seq<i64>, FaultView>(e@),
            },
    {
        if i >= n.inputs.len() {
            return Err(Fault::Unfit);
        }
        match self.get_ints(n.inputs[i].as_str()) {
            Some(v) => Ok(v),
            None => Err(Fault::MissingInts(i)),
        }
    }

    pub fn opt_int_operand(&self, n: &NodeDecl<T>, i: usize) -> (r: Result<Option<&[i64]>, Fault>)
        ensures
            match r {
                Ok(v) => may_ints(self, n, i as int) == Ok::<Option<Seq<i64>>, FaultView>(opt_seq(v)),
                Err(e) => may_ints(self, n, i as int) == Err::<Option<Seq<i64>>, FaultView>(e@),
            },
    {
        if i < n.inputs.len() && !n.inputs[i].as_str().is_empty() {
            match self.int_operand(n, i) {
                Ok(v) => Ok(Some(v.as_slice())),
                Err(e) => Err(e),
            }
        } else {
            Ok(None)
        }
    }

    /// The tensor by value: moved out of the environment where this is its last
    /// use, copied otherwise.
    pub fn take_or_clone(
        &self,
        env: &mut NameMap<Tens<T>>,
        remain: &NameMap<usize>,
        name: &str,
    ) -> (r: Option<Tens<T>>)
        ensures
            match r {
                Some(t) => {
                    &&& tensor_of(self, old(env)@, name@) is Some
                    &&& t.shape@ == tensor_of(self, old(env)@, name@)->Some_0.shape@
                    &&& t.data@ == tensor_of(self, old(env)@, name@)->Some_0.data@
                },
                None => tensor_of(self, old(env)@, name@) is None,
            },
            final(env)@ == after_take(old(env)@, remain@, name@),
    {
        let last = match remain.get(name) {
            Some(u) => *u == 1,
            None => false,
        };
        if last {
            let t = env.remove(name);
            if t.is_some() {
                return t;
            }
            assert(env@ =~= old(env)@);
        }
        match self.get(env, name) {
            Some(t) => Some(t.copied()),
            None => None,
        }
    }
}

/// The environment once a tensor was taken for its last use.
pub open spec fn after_take<T>(env: Env<T>, remain: Map<Seq<char>, usize>, name: Seq<char>) -> Env<T> {
    if remain.contains_key(name) && remain[name] == 1 { env.remove(name) } else { env }
}

} // verus!
