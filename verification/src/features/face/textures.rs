//! Mip chains and the prefiltered room cube.

use super::glb::material::Picture;
use super::srgb::{average, Px};
use crate::reals::Reals;
use vstd::prelude::*;

verus! {

use super::srgb::average_is;

/// The pixel stored from byte `4 * i` on.
pub open spec fn px(data: Seq<u8>, i: int) -> Px {
    Px { r: data[4 * i], g: data[4 * i + 1], b: data[4 * i + 2], a: data[4 * i + 3] }
}

/// The size of the next level along one axis.
pub open spec fn half(n: int) -> int {
    if n / 2 >= 1 {
        n / 2
    } else {
        1
    }
}

pub open spec fn at_most(a: int, b: int) -> int {
    if a <= b {
        a
    } else {
        b
    }
}

/// Source pixel `(2x + dx, 2y + dy)`, kept inside the picture.
pub open spec fn source(w: int, h: int, x: int, y: int, dx: int, dy: int) -> int {
    at_most(2 * y + dy, h - 1) * w + at_most(2 * x + dx, w - 1)
}

/// Pixel `(x, y)` of a level averages the two by two block of the level above.
pub open spec fn averaged<R: Reals>(
    ar: &R,
    srgb: bool,
    w: int,
    h: int,
    src: Seq<u8>,
    x: int,
    y: int,
    out: Px,
) -> bool {
    average_is(
        ar,
        srgb,
        px(src, source(w, h, x, y, 0, 0)),
        px(src, source(w, h, x, y, 1, 0)),
        px(src, source(w, h, x, y, 0, 1)),
        px(src, source(w, h, x, y, 1, 1)),
        out,
    )
}

/// The picture holds all its pixels.
pub open spec fn covered(p: Picture) -> bool {
    p.width >= 1 && p.height >= 1 && 4 * (p.width * p.height) <= p.rgba@.len()
}

/// `b` is the level below `a`.
pub open spec fn next_level<R: Reals>(ar: &R, srgb: bool, a: Picture, b: Picture) -> bool {
    let (w, h) = (half(a.width as int), half(a.height as int));
    &&& b.width == w
    &&& b.height == h
    &&& b.rgba@.len() == 4 * (w * h)
    &&& forall|x: int, y: int|
        #![trigger px(b.rgba@, y * w + x)]
        0 <= x < w && 0 <= y < h ==> averaged(
            ar,
            srgb,
            a.width as int,
            a.height as int,
            a.rgba@,
            x,
            y,
            px(b.rgba@, y * w + x),
        )
}

/// `levels` starts at `top`, halves at each step, and ends at one pixel.
pub open spec fn mip_chain<R: Reals>(
    ar: &R,
    srgb: bool,
    top: PictureSize,
    data: Seq<u8>,
    levels: Seq<Picture>,
) -> bool {
    &&& levels.len() >= 1
    &&& levels[0].width == top.width
    &&& levels[0].height == top.height
    &&& levels[0].rgba@ == data
    &&& forall|i: int|
        #![trigger levels[i]]
        1 <= i < levels.len() ==> next_level(ar, srgb, levels[i - 1], levels[i])
    &&& forall|i: int|
        #![trigger levels[i]]
        0 <= i < levels.len() - 1 ==> levels[i].width > 1 || levels[i].height > 1
    &&& levels[levels.len() - 1].width == 1
    &&& levels[levels.len() - 1].height == 1
}

#[derive(Clone, Copy, Debug, PartialEq, Eq, Structural)]
pub struct PictureSize {
    pub width: u32,
    pub height: u32,
}

fn halved(n: u32) -> (r: u32)
    requires
        n >= 1,
    ensures
        r == half(n as int),
        1 <= r <= n,
{
    if n / 2 >= 1 {
        n / 2
    } else {
        1
    }
}

proof fn lemma_inside(x: int, y: int, w: int, h: int)
    requires
        0 <= x < w,
        0 <= y < h,
    ensures
        0 <= y * w + x < w * h,
        0 <= y * w,
{
    assert(y * w + w <= w * h) by (nonlinear_arith)
        requires
            y + 1 <= h,
            w >= 0,
    ;
    assert(y * w >= 0) by (nonlinear_arith)
        requires
            y >= 0,
            w >= 0,
    ;
}

fn fetch(src: &Vec<u8>, w: u32, h: u32, x: u32, y: u32) -> (r: Px)
    requires
        w >= 1,
        h >= 1,
        4 * (w * h) <= src@.len(),
    ensures
        r == px(src@, at_most(y as int, h - 1) * w + at_most(x as int, w - 1)),
{
    let x: usize = (if x <= w - 1 { x } else { w - 1 }) as usize;
    let y: usize = (if y <= h - 1 { y } else { h - 1 }) as usize;
    proof {
        lemma_inside(x as int, y as int, w as int, h as int);
    }
    let n: usize = src.len();
    let i: usize = (y * w as usize + x) * 4;
    Px { r: src[i], g: src[i + 1], b: src[i + 2], a: src[i + 3] }
}

/// The level below one that is not a single pixel.
fn shrink<R: Reals>(a: &Picture, srgb: bool, ar: &R) -> (b: Picture)
    requires
        covered(*a),
    ensures
        next_level(ar, srgb, *a, b),
        covered(b),
{
    let (w, h) = (a.width, a.height);
    let nw: u32 = halved(w);
    let nh: u32 = halved(h);
    let mut out: Vec<u8> = Vec::new();
    let mut y: u32 = 0;
    let ghost (gw, gh, src) = (nw as int, nh as int, a.rgba@);
    assert(0 * gw == 0);
    while y < nh
        invariant
            covered(*a),
            w == a.width,
            h == a.height,
            src == a.rgba@,
            gw == nw,
            gh == nh,
            nw == half(w as int),
            nh == half(h as int),
            y <= nh,
            out@.len() == 4 * (y * gw),
            forall|i: int, j: int|
                #![trigger px(out@, j * gw + i)]
                0 <= i < gw && 0 <= j < y ==> averaged(
                    ar,
                    srgb,
                    w as int,
                    h as int,
                    src,
                    i,
                    j,
                    px(out@, j * gw + i),
                ),
        decreases nh - y,
    {
        let mut x: u32 = 0;
        while x < nw
            invariant
                covered(*a),
                w == a.width,
                h == a.height,
                src == a.rgba@,
                gw == nw,
                gh == nh,
                nw == half(w as int),
                nh == half(h as int),
                y < nh,
                x <= nw,
                out@.len() == 4 * (y * gw + x),
                forall|i: int, j: int|
                    #![trigger px(out@, j * gw + i)]
                    0 <= i < gw && 0 <= j <= y && (j < y || i < x) ==> averaged(
                        ar,
                        srgb,
                        w as int,
                        h as int,
                        src,
                        i,
                        j,
                        px(out@, j * gw + i),
                    ),
            decreases nw - x,
        {
            let p = fetch(&a.rgba, w, h, 2 * x, 2 * y);
            let q = fetch(&a.rgba, w, h, 2 * x + 1, 2 * y);
            let r = fetch(&a.rgba, w, h, 2 * x, 2 * y + 1);
            let s = fetch(&a.rgba, w, h, 2 * x + 1, 2 * y + 1);
            let ghost was = out@;
            let m = average(p, q, r, s, srgb, ar);
            out.push(m.r);
            out.push(m.g);
            out.push(m.b);
            out.push(m.a);
            proof {
                assert(px(out@, y * gw + x) == m);
                assert forall|i: int, j: int|
                    0 <= i < gw && 0 <= j <= y && (j < y || i < x + 1) implies averaged(
                    ar,
                    srgb,
                    w as int,
                    h as int,
                    src,
                    i,
                    j,
                    #[trigger] px(out@, j * gw + i),
                ) by {
                    if j < y || i < x {
                        if j < y {
                            lemma_inside(i, j, gw, y as int);
                            assert(gw * y == y * gw) by (nonlinear_arith);
                        }
                        assert(0 <= j * gw) by (nonlinear_arith)
                            requires
                                j >= 0,
                                gw >= 0,
                        ;
                        assert(px(out@, j * gw + i) == px(was, j * gw + i));
                    }
                }
            }
            x += 1;
        }
        y += 1;
        assert((y - 1) * gw + gw == y * gw) by (nonlinear_arith);
    }
    assert(gh * gw == gw * gh) by (nonlinear_arith);
    Picture { width: nw, height: nh, rgba: out }
}

/// The levels of a texture, each half the size of the one before, down to a
/// single pixel. With `srgb` the colours are averaged as light.
pub fn build_mip_chain<R: Reals>(img: &Picture, srgb: bool, ar: &R) -> (r: Vec<Picture>)
    requires
        covered(*img),
    ensures
        mip_chain(
            ar,
            srgb,
            PictureSize { width: img.width, height: img.height },
            img.rgba@,
            r@,
        ),
{
    let mut levels: Vec<Picture> = Vec::new();
    levels.push(Picture { width: img.width, height: img.height, rgba: img.rgba.clone() });
    assert(levels@[0].rgba@ =~= img.rgba@);
    let mut last: usize = 0;
    while levels[last].width > 1 || levels[last].height > 1
        invariant
            last + 1 == levels@.len(),
            covered(levels@[last as int]),
            levels@[0].width == img.width,
            levels@[0].height == img.height,
            levels@[0].rgba@ == img.rgba@,
            forall|i: int|
                #![trigger levels@[i]]
                1 <= i < levels@.len() ==> next_level(ar, srgb, levels@[i - 1], levels@[i]),
            forall|i: int|
                #![trigger levels@[i]]
                0 <= i < levels@.len() - 1 ==> levels@[i].width > 1 || levels@[i].height > 1,
        decreases levels@[last as int].width + levels@[last as int].height,
    {
        let ghost was = levels@;
        let b = shrink(&levels[last], srgb, ar);
        levels.push(b);
        proof {
            assert forall|i: int| 1 <= i < levels@.len() implies next_level(
                ar,
                srgb,
                levels@[i - 1],
                #[trigger] levels@[i],
            ) by {
                if i < was.len() {
                    assert(levels@[i] == was[i] && levels@[i - 1] == was[i - 1]);
                } else {
                    assert(levels@[i - 1] == was[i - 1]);
                }
            }
        }
        // what is there fits in memory, which bounds the sizes
        let have: usize = levels.len();
        last = have - 1;
    }
    levels
}

/// A chain has as many levels as its longer side can be halved, plus one.
pub open spec fn halvings(n: int) -> nat
    decreases n,
{
    if n <= 1 {
        0
    } else {
        1 + halvings(n / 2)
    }
}

/// The number of levels is fixed by the longer side of the picture.
pub proof fn law_mip_count<R: Reals>(
    ar: &R,
    srgb: bool,
    top: PictureSize,
    data: Seq<u8>,
    levels: Seq<Picture>,
)
    requires
        mip_chain(ar, srgb, top, data, levels),
        top.width >= 1,
        top.height >= 1,
    ensures
        levels.len() == 1 + halvings(
            if top.width >= top.height {
                top.width as int
            } else {
                top.height as int
            },
        ),
{
    lemma_mip_count(ar, srgb, top, data, levels, 0);
}

proof fn lemma_mip_count<R: Reals>(
    ar: &R,
    srgb: bool,
    top: PictureSize,
    data: Seq<u8>,
    levels: Seq<Picture>,
    i: int,
)
    requires
        mip_chain(ar, srgb, top, data, levels),
        0 <= i < levels.len(),
        levels[i].width >= 1,
        levels[i].height >= 1,
    ensures
        levels.len() - i == 1 + halvings(
            if levels[i].width >= levels[i].height {
                levels[i].width as int
            } else {
                levels[i].height as int
            },
        ),
    decreases levels.len() - i,
{
    if i + 1 < levels.len() {
        let (a, b) = (levels[i], levels[i + 1]);
        assert(next_level(ar, srgb, levels[i + 1 - 1], b));
        lemma_mip_count(ar, srgb, top, data, levels, i + 1);
    }
}

// ---- the room cube ----

pub const ENV_CUBE_SIZE: u32 = 64;

pub const ENV_CUBE_MIPS: u32 = 7;

/// One face of one level of the cube and its bytes.
#[derive(Clone, Copy, Debug, PartialEq, Eq, Structural)]
pub struct EnvFace {
    pub mip: u32,
    pub face: u32,
    /// Pixels along an edge.
    pub size: u32,
    pub start: usize,
    pub end: usize,
}

/// The cube data ends inside this face.
#[derive(Clone, Copy, Debug, PartialEq, Eq, Structural)]
pub struct EnvShort {
    pub mip: u32,
    pub face: u32,
}

/// Edge of level `mip`.
pub open spec fn env_size(mip: int) -> int {
    if mip <= 0 {
        64
    } else if mip == 1 {
        32
    } else if mip == 2 {
        16
    } else if mip == 3 {
        8
    } else if mip == 4 {
        4
    } else if mip == 5 {
        2
    } else {
        1
    }
}

/// Bytes before face `n`, counted over all levels, six faces a level, eight
/// bytes a pixel.
pub open spec fn env_offset(n: nat) -> int
    decreases n,
{
    if n == 0 {
        0
    } else {
        env_offset((n - 1) as nat) + 8 * (env_size((n - 1) / 6) * env_size((n - 1) / 6))
    }
}

pub open spec fn env_face(n: int) -> EnvFace {
    EnvFace {
        mip: (n / 6) as u32,
        face: (n % 6) as u32,
        size: env_size(n / 6) as u32,
        start: env_offset(n as nat) as usize,
        end: env_offset((n + 1) as nat) as usize,
    }
}

fn env_edge(mip: u32) -> (r: u32)
    ensures
        r == env_size(mip as int),
        r <= 64,
{
    if mip == 0 {
        64
    } else if mip == 1 {
        32
    } else if mip == 2 {
        16
    } else if mip == 3 {
        8
    } else if mip == 4 {
        4
    } else if mip == 5 {
        2
    } else {
        1
    }
}

proof fn lemma_env_grows(a: nat, b: nat)
    requires
        a <= b,
    ensures
        env_offset(a) <= env_offset(b),
    decreases b,
{
    if a < b {
        lemma_env_grows(a, (b - 1) as nat);
        let e = env_size((b - 1) / 6);
        assert(e * e >= 0) by (nonlinear_arith);
    }
}

/// The faces of the cube in the order of its data, level by level.
pub fn env_faces(len: usize) -> (r: Result<Vec<EnvFace>, EnvShort>)
    ensures
        match r {
            Ok(v) => env_offset(42) <= len && v@ == Seq::new(42, |n: int| env_face(n)),
            Err(e) => exists|n: int|
                0 <= n < 42 && #[trigger] env_offset((n + 1) as nat) > len && env_offset(n as nat)
                    <= len && e.mip == n / 6 && e.face == n % 6,
        },
{
    let mut out: Vec<EnvFace> = Vec::new();
    let mut off: usize = 0;
    let mut n: u32 = 0;
    while n < 42
        invariant
            n <= 42,
            off == env_offset(n as nat),
            off <= len,
            off <= n * 32768,
            out@ == Seq::new(n as nat, |k: int| env_face(k)),
        decreases 42 - n,
    {
        let mip: u32 = n / 6;
        let face: u32 = n % 6;
        let size: u32 = env_edge(mip);
        proof {
            let e = size as int;
            assert(0 <= e * e <= 4096) by (nonlinear_arith)
                requires
                    0 <= e <= 64,
            ;
        }
        let end: usize = off + 8 * (size * size) as usize;
        assert(end == env_offset((n + 1) as nat));
        if end > len {
            return Err(EnvShort { mip, face });
        }
        out.push(EnvFace { mip, face, size, start: off, end });
        off = end;
        n += 1;
        assert(out@ =~= Seq::new(n as nat, |k: int| env_face(k)));
    }
    Ok(out)
}

/// The whole cube takes this many bytes: whatever holds them can be uploaded.
pub proof fn law_env_total()
    ensures
        env_offset(42) == 48 * (4096 + 1024 + 256 + 64 + 16 + 4 + 1),
{
    assert(64 * 64 == 4096 && 32 * 32 == 1024 && 16 * 16 == 256) by (nonlinear_arith);
    lemma_env_level(0, 64, 4096);
    lemma_env_level(1, 32, 1024);
    lemma_env_level(2, 16, 256);
    lemma_env_level(3, 8, 64);
    lemma_env_level(4, 4, 16);
    lemma_env_level(5, 2, 4);
    lemma_env_level(6, 1, 1);
}

proof fn lemma_env_level(m: int, edge: int, area: int)
    requires
        0 <= m < 7,
        edge == env_size(m),
        area == edge * edge,
    ensures
        env_offset((6 * m + 6) as nat) == env_offset((6 * m) as nat) + 48 * area,
{
    reveal_with_fuel(env_offset, 7);
    let n = 6 * m;
    assert((n + 1) / 6 == m && (n + 2) / 6 == m && (n + 3) / 6 == m && (n + 4) / 6 == m && (n + 5)
        / 6 == m && n / 6 == m);
}

/// The faces follow one another without gaps.
pub proof fn law_env_faces_adjoin(n: int)
    requires
        0 <= n < 41,
    ensures
        env_face(n).end == env_face(n + 1).start,
        env_face(n).start <= env_face(n).end,
{
    lemma_env_grows(n as nat, (n + 1) as nat);
    lemma_env_grows((n + 1) as nat, 42);
    lemma_env_grows(0, n as nat);
    law_env_total();
    assert(env_offset((n + 1) as nat) <= 0xffff_ffff);
}

} // verus!
