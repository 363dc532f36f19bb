//! What can go wrong in a tensor operator.

use crate::decimals::{decimal_of, signed_of};
use vstd::prelude::*;
use vstd::string::StringExecFns;

verus! {

use crate::decimals::{decimal, signed};

#[derive(Clone, Debug, PartialEq, Eq)]
pub enum OpError {
    /// The name is none of an element-wise operator of two operands.
    UnknownEw(String),
    /// The name is none of an operator of one operand.
    UnknownUnary(String),
    /// Two shapes do not broadcast together.
    Broadcast(Vec<usize>, Vec<usize>),
    /// A reshape target asks for two inferred dimensions.
    TwoInferred,
    /// A reshape target copies a dimension that the input does not have.
    ZeroOutOfRange,
    /// A reshape target holds a value that is no dimension.
    BadTarget(i64),
    /// A reshape of this shape to this target would change the number of elements.
    SizeMismatch(Vec<usize>, Vec<i64>),
    /// An operand of a batched product has too few dimensions.
    MatmulRank(usize, usize),
    /// The inner dimensions of a batched product differ.
    MatmulInner(usize, usize),
    /// An operand of a general product is no matrix.
    GemmRank(Vec<usize>, Vec<usize>),
    /// The inner dimensions of a general product differ.
    GemmInner(usize, usize),
    /// The channel counts of a kernel and its signal differ.
    ConvChannels(usize, usize),
    /// The same, of a transposed convolution.
    ConvtChannels(usize, usize),
    /// The axis is not the last one.
    Axis(usize),
    /// A slice step is not positive.
    Step,
    /// The number of pad amounts is not twice the rank.
    PadCount(usize, usize),
}

/// What an error holds.
pub enum OpView {
    UnknownEw(Seq<char>),
    UnknownUnary(Seq<char>),
    Broadcast(Seq<usize>, Seq<usize>),
    TwoInferred,
    ZeroOutOfRange,
    BadTarget(i64),
    SizeMismatch(Seq<usize>, Seq<i64>),
    MatmulRank(usize, usize),
    MatmulInner(usize, usize),
    GemmRank(Seq<usize>, Seq<usize>),
    GemmInner(usize, usize),
    ConvChannels(usize, usize),
    ConvtChannels(usize, usize),
    Axis(usize),
    Step,
    PadCount(usize, usize),
}

impl View for OpError {
    type V = OpView;

    open spec fn view(&self) -> OpView {
        match *self {
            OpError::UnknownEw(n) => OpView::UnknownEw(n@),
            OpError::UnknownUnary(n) => OpView::UnknownUnary(n@),
            OpError::Broadcast(a, b) => OpView::Broadcast(a@, b@),
            OpError::TwoInferred => OpView::TwoInferred,
            OpError::ZeroOutOfRange => OpView::ZeroOutOfRange,
            OpError::BadTarget(t) => OpView::BadTarget(t),
            OpError::SizeMismatch(s, t) => OpView::SizeMismatch(s@, t@),
            OpError::MatmulRank(a, b) => OpView::MatmulRank(a, b),
            OpError::MatmulInner(a, b) => OpView::MatmulInner(a, b),
            OpError::GemmRank(a, b) => OpView::GemmRank(a@, b@),
            OpError::GemmInner(a, b) => OpView::GemmInner(a, b),
            OpError::ConvChannels(a, b) => OpView::ConvChannels(a, b),
            OpError::ConvtChannels(a, b) => OpView::ConvtChannels(a, b),
            OpError::Axis(a) => OpView::Axis(a),
            OpError::Step => OpView::Step,
            OpError::PadCount(n, r) => OpView::PadCount(n, r),
        }
    }
}

/// Two numbers with a text between them.
pub open spec fn pair_text(a: usize, sep: Seq<char>, b: usize) -> Seq<char> {
    decimal(a as nat) + sep + decimal(b as nat)
}

/// Sizes with a comma between each two.
pub open spec fn sizes_text(s: Seq<usize>) -> Seq<char>
    decreases s.len(),
{
    if s.len() == 0 {
        Seq::empty()
    } else if s.len() == 1 {
        decimal(s[0] as nat)
    } else {
        sizes_text(s.drop_last()) + ", "@ + decimal(s.last() as nat)
    }
}

/// A shape in brackets.
pub open spec fn shape_text(s: Seq<usize>) -> Seq<char> {
    "["@ + sizes_text(s) + "]"@
}

/// Numbers with a comma between each two.
pub open spec fn numbers_text(s: Seq<i64>) -> Seq<char>
    decreases s.len(),
{
    if s.len() == 0 {
        Seq::empty()
    } else if s.len() == 1 {
        signed(s[0] as int)
    } else {
        numbers_text(s.drop_last()) + ", "@ + signed(s.last() as int)
    }
}

/// A reshape target in brackets.
pub open spec fn target_text(s: Seq<i64>) -> Seq<char> {
    "["@ + numbers_text(s) + "]"@
}

/// The text of an error.
pub open spec fn message_of(e: OpView) -> Seq<char> {
    "audio-graph: "@ + match e {
        OpView::UnknownEw(n) => "미지 ew op "@ + n,
        OpView::UnknownUnary(n) => "미지 unary op "@ + n,
        OpView::Broadcast(a, b) => "브로드캐스트 불가 "@ + (shape_text(a) + " × "@ + shape_text(b)),
        OpView::TwoInferred => "-1이 둘"@,
        OpView::ZeroOutOfRange => "0 차원 범위 밖"@,
        OpView::BadTarget(t) => "reshape 목표 "@ + signed(t as int),
        OpView::SizeMismatch(s, t) => "reshape "@ + (shape_text(s) + " → "@ + target_text(t)
            + " 크기 불일치"@),
        OpView::MatmulRank(a, b) => "matmul rank "@ + pair_text(a, "/"@, b),
        OpView::GemmRank(a, b) => "gemm rank "@ + (shape_text(a) + "/"@ + shape_text(b)),
        OpView::MatmulInner(a, b) => "matmul K 불일치 "@ + pair_text(a, "≠"@, b),
        OpView::GemmInner(a, b) => "gemm K 불일치 "@ + pair_text(a, "≠"@, b),
        OpView::ConvChannels(a, b) => "conv1d C 불일치 "@ + pair_text(a, "≠"@, b),
        OpView::ConvtChannels(a, b) => "convT C 불일치 "@ + pair_text(a, "≠"@, b),
        OpView::Axis(a) => "softmax 축 "@ + (decimal(a as nat) + " (마지막 축만)"@),
        OpView::Step => "slice 음수 step 미지원"@,
        OpView::PadCount(n, r) => "pads 길이 "@ + pair_text(n, " ≠ 2×"@, r),
    }
}

fn with(a: &str, b: String) -> (r: String)
    ensures
        r@ == a@ + b@,
{
    let mut s = a.to_owned();
    s.append(b.as_str());
    s
}

fn pair(a: usize, sep: &str, b: usize) -> (r: String)
    ensures
        r@ == pair_text(a, sep@, b),
{
    let mut s = decimal_of(a as u64);
    s.append(sep);
    s.append(decimal_of(b as u64).as_str());
    s
}

/// The text of a shape.
pub fn shape_of(v: &[usize]) -> (r: String)
    ensures
        r@ == shape_text(v@),
{
    let mut s = "[".to_owned();
    let ghost open = s@;
    let mut i: usize = 0;
    assert(s@ =~= open + sizes_text(v@.take(0)));
    while i < v.len()
        invariant
            i <= v@.len(),
            s@ == open + sizes_text(v@.take(i as int)),
        decreases v@.len() - i,
    {
        let ghost before = s@;
        proof {
            let t = v@.take(i + 1);
            assert(t.drop_last() =~= v@.take(i as int));
            assert(t.last() == v@[i as int]);
        }
        if i > 0 {
            s.append(", ");
        }
        s.append(decimal_of(v[i] as u64).as_str());
        i += 1;
        proof {
            if i == 1 {
                assert(before =~= open);
            }
            assert(s@ =~= open + sizes_text(v@.take(i as int)));
        }
    }
    assert(v@.take(v@.len() as int) =~= v@);
    s.append("]");
    s
}

/// The text of a reshape target.
fn target_of(v: &[i64]) -> (r: String)
    ensures
        r@ == target_text(v@),
{
    let mut s = "[".to_owned();
    let ghost open = s@;
    let mut i: usize = 0;
    assert(s@ =~= open + numbers_text(v@.take(0)));
    while i < v.len()
        invariant
            i <= v@.len(),
            s@ == open + numbers_text(v@.take(i as int)),
        decreases v@.len() - i,
    {
        let ghost before = s@;
        proof {
            let t = v@.take(i + 1);
            assert(t.drop_last() =~= v@.take(i as int));
            assert(t.last() == v@[i as int]);
        }
        if i > 0 {
            s.append(", ");
        }
        s.append(signed_of(v[i]).as_str());
        i += 1;
        proof {
            if i == 1 {
                assert(before =~= open);
            }
            assert(s@ =~= open + numbers_text(v@.take(i as int)));
        }
    }
    assert(v@.take(v@.len() as int) =~= v@);
    s.append("]");
    s
}

fn two_shapes(a: &[usize], sep: &str, b: &[usize]) -> (r: String)
    ensures
        r@ == shape_text(a@) + sep@ + shape_text(b@),
{
    let mut s = shape_of(a);
    s.append(sep);
    s.append(shape_of(b).as_str());
    s
}

impl OpError {
    /// The text of the error: what is refused, and what it holds.
    pub fn message(&self) -> (r: String)
        ensures
            r@ == message_of(self@),
    {
        let what = match self {
            OpError::UnknownEw(n) => with("미지 ew op ", n.as_str().to_owned()),
            OpError::UnknownUnary(n) => with("미지 unary op ", n.as_str().to_owned()),
            OpError::Broadcast(a, b) => with(
                "브로드캐스트 불가 ",
                two_shapes(a.as_slice(), " × ", b.as_slice()),
            ),
            OpError::TwoInferred => "-1이 둘".to_owned(),
            OpError::ZeroOutOfRange => "0 차원 범위 밖".to_owned(),
            OpError::BadTarget(t) => with("reshape 목표 ", signed_of(*t)),
            OpError::SizeMismatch(a, t) => {
                let mut s = shape_of(a.as_slice());
                s.append(" → ");
                s.append(target_of(t.as_slice()).as_str());
                s.append(" 크기 불일치");
                with("reshape ", s)
            },
            OpError::MatmulRank(a, b) => with("matmul rank ", pair(*a, "/", *b)),
            OpError::GemmRank(a, b) => with(
                "gemm rank ",
                two_shapes(a.as_slice(), "/", b.as_slice()),
            ),
            OpError::MatmulInner(a, b) => with("matmul K 불일치 ", pair(*a, "≠", *b)),
            OpError::GemmInner(a, b) => with("gemm K 불일치 ", pair(*a, "≠", *b)),
            OpError::ConvChannels(a, b) => with("conv1d C 불일치 ", pair(*a, "≠", *b)),
            OpError::ConvtChannels(a, b) => with("convT C 불일치 ", pair(*a, "≠", *b)),
            OpError::Axis(a) => {
                let mut s = decimal_of(*a as u64);
                s.append(" (마지막 축만)");
                with("softmax 축 ", s)
            },
            OpError::Step => "slice 음수 step 미지원".to_owned(),
            OpError::PadCount(n, r) => with("pads 길이 ", pair(*n, " ≠ 2×", *r)),
        };
        with("audio-graph: ", what)
    }
}

} // verus!
