//! The light of the scene, and the numbers that the shaders read.

use super::items3d::{probe_rgb, probe_yuv, Plane, ProbeClock, ProbeSum, YuvSample};
use super::linear::{mat_mul, mat_perspective, Mat4};
use super::pose::CAMERA_ANGLE;
use crate::ieee::F32;
use crate::reals::Reals;
use crate::trace::Num;
use vstd::prelude::*;

verus! {

use super::items3d::{probe_step, probe_sum, probed, yuv_at};
use super::linear::{product_is, projected_is};
use crate::trace::{bits, eval, val, Ex};

/// How bright the scene is and which colour its light has.
#[derive(Clone, Copy, Debug, PartialEq, Eq, Structural)]
pub struct Light {
    pub exposure: F32,
    pub r: F32,
    pub g: F32,
    pub b: F32,
}

/// The share of the way that a probe moves the light: 0.15.
pub const EASE: u32 = 0x3e19_999a;

pub open spec fn luma(r: F32, g: F32, b: F32) -> Ex {
    bits(0x3e59_b3d0).times(val(r)).plus(bits(0x3f37_1759).times(val(g))).plus(
        bits(0x3d93_dd98).times(val(b)),
    )
}

/// The exposure that suits a mean colour.
pub open spec fn wanted(r: F32, g: F32, b: F32) -> Ex {
    luma(r, g, b).over(bits(0x3ed7_0a3d)).clamp(bits(0x3f00_0000), bits(0x3fb3_3333))
}

/// The strongest channel, at least a ten thousandth.
pub open spec fn strongest(r: F32, g: F32, b: F32) -> F32 {
    r.max_of(g).max_of(b).max_of(F32 { bits: 0x38d1_b717 })
}

pub open spec fn eased(a: F32, target: Ex) -> Ex {
    val(a).plus(target.minus(val(a)).times(bits(EASE)))
}

/// `n` is the light `o` moved toward the mean colour of a probe.
pub open spec fn probed_light<R: Reals>(ar: &R, o: Light, r: F32, g: F32, b: F32, n: Light) -> bool {
    let top = strongest(r, g, b);
    &&& eval(ar, eased(o.exposure, wanted(r, g, b)), n.exposure)
    &&& eval(ar, eased(o.r, val(r).over(val(top))), n.r)
    &&& eval(ar, eased(o.g, val(g).over(val(top))), n.g)
    &&& eval(ar, eased(o.b, val(b).over(val(top))), n.b)
}

fn ease<R: Reals>(a: F32, target: Num, ar: &R) -> (r: F32)
    requires
        target.ok(ar),
    ensures
        eval(ar, eased(a, target.e@), r),
{
    let x = Num::new(a, ar);
    x.plus(target.minus(x, ar).times(Num::bits(EASE, ar), ar), ar).v
}

/// The mean of `sum` over `count` pixels, as a share of 255.
pub open spec fn mean_share(sum: Ex, count: u64) -> Ex {
    sum.over(Ex::Int(count as i64).times(bits(0x437f_0000)))
}

pub open spec fn means_at<R: Reals>(
    ar: &R,
    sums: (Ex, Ex, Ex),
    count: u64,
    m: (F32, F32, F32),
) -> bool {
    &&& eval(ar, mean_share(sums.0, count), m.0)
    &&& eval(ar, mean_share(sums.1, count), m.1)
    &&& eval(ar, mean_share(sums.2, count), m.2)
}

/// `n` is the light `o` after a probe of `count` pixels; unchanged without any.
pub open spec fn relit<R: Reals>(
    ar: &R,
    o: Light,
    sums: (Ex, Ex, Ex),
    count: u64,
    n: Light,
) -> bool {
    if count == 0 {
        n == o
    } else {
        exists|m: (F32, F32, F32)|
            #[trigger] means_at(ar, sums, count, m) && probed_light(ar, o, m.0, m.1, m.2, n)
    }
}

pub open spec fn sums_of(s: ProbeSum) -> (Ex, Ex, Ex) {
    (Ex::Int(s.r as i64), Ex::Int(s.g as i64), Ex::Int(s.b as i64))
}

/// A byte of a colour plane about its middle.
pub open spec fn centred(c: u8) -> Ex {
    Ex::Int(c as i64).minus(bits(0x4300_0000))
}

pub open spec fn held(e: Ex) -> Ex {
    e.clamp(bits(0), bits(0x437f_0000))
}

/// Red, green and blue of a sample in three planes.
pub open spec fn red_of(s: YuvSample) -> Ex {
    held(Ex::Int(s.y as i64).plus(bits(0x3fb3_74bc).times(centred(s.v))))
}

pub open spec fn green_of(s: YuvSample) -> Ex {
    held(
        Ex::Int(s.y as i64).minus(bits(0x3eb0_3298).times(centred(s.u))).minus(
            bits(0x3f36_d19e).times(centred(s.v)),
        ),
    )
}

pub open spec fn blue_of(s: YuvSample) -> Ex {
    held(Ex::Int(s.y as i64).plus(bits(0x3fe2_d0e5).times(centred(s.u))))
}

pub open spec fn yuv_sums(v: Seq<YuvSample>, n: nat) -> (Ex, Ex, Ex)
    decreases n,
{
    if n == 0 {
        (bits(0), bits(0), bits(0))
    } else {
        let s = yuv_sums(v, (n - 1) as nat);
        (
            s.0.plus(red_of(v[n - 1])),
            s.1.plus(green_of(v[n - 1])),
            s.2.plus(blue_of(v[n - 1])),
        )
    }
}

impl Light {
    pub fn new() -> (r: Light)
        ensures
            r.exposure.bits == 0x3f80_0000,
            r.r.bits == 0x3f80_0000,
            r.g.bits == 0x3f80_0000,
            r.b.bits == 0x3f80_0000,
    {
        let one = F32 { bits: 0x3f80_0000 };
        Light { exposure: one, r: one, g: one, b: one }
    }

    /// Moves the light toward a mean colour.
    pub fn apply_probe<R: Reals>(&mut self, r: F32, g: F32, b: F32, ar: &R)
        ensures
            probed_light(ar, *old(self), r, g, b, *final(self)),
    {
        let x = Num::new(r, ar);
        let y = Num::new(g, ar);
        let z = Num::new(b, ar);
        let bright = Num::bits(0x3e59_b3d0, ar).times(x, ar).plus(
            Num::bits(0x3f37_1759, ar).times(y, ar),
            ar,
        ).plus(Num::bits(0x3d93_dd98, ar).times(z, ar), ar);
        let target = bright.over(Num::bits(0x3ed7_0a3d, ar), ar).clamp(
            Num::bits(0x3f00_0000, ar),
            Num::bits(0x3fb3_3333, ar),
            ar,
        );
        let floor = F32 { bits: 0x38d1_b717 };
        let top = Num::new(r.max(g).max(b).max(floor), ar);
        *self = Light {
            exposure: ease(self.exposure, target, ar),
            r: ease(self.r, x.over(top, ar), ar),
            g: ease(self.g, y.over(top, ar), ar),
            b: ease(self.b, z.over(top, ar), ar),
        };
    }

    fn take<R: Reals>(&mut self, r: Num, g: Num, b: Num, count: u64, ar: &R)
        requires
            r.ok(ar),
            g.ok(ar),
            b.ok(ar),
            count <= i64::MAX,
        ensures
            relit(ar, *old(self), (r.e@, g.e@, b.e@), count, *final(self)),
    {
        if count > 0 {
            let n = Num::of(count as i64, ar).times(Num::bits(0x437f_0000, ar), ar);
            let x = r.over(n, ar).v;
            let y = g.over(n, ar).v;
            let z = b.over(n, ar).v;
            assert(means_at(ar, (r.e@, g.e@, b.e@), count, (x, y, z)));
            self.apply_probe(x, y, z, ar);
        }
    }

    /// Takes the sums of a probe.
    pub fn take_rgb<R: Reals>(&mut self, s: &ProbeSum, ar: &R)
        requires
            s.r <= i64::MAX,
            s.g <= i64::MAX,
            s.b <= i64::MAX,
            s.count <= i64::MAX,
        ensures
            relit(ar, *old(self), sums_of(*s), s.count, *final(self)),
    {
        let r = Num::of(s.r as i64, ar);
        let g = Num::of(s.g as i64, ar);
        let b = Num::of(s.b as i64, ar);
        self.take(r, g, b, s.count, ar);
    }

    /// Takes the samples of a probe of three planes.
    pub fn take_yuv<R: Reals>(&mut self, v: &Vec<YuvSample>, ar: &R)
        requires
            v@.len() <= i64::MAX,
        ensures
            relit(ar, *old(self), yuv_sums(v@, v@.len()), v@.len() as u64, *final(self)),
    {
        let mut r = Num::bits(0, ar);
        let mut g = Num::bits(0, ar);
        let mut b = Num::bits(0, ar);
        let lo = Num::bits(0, ar);
        let hi = Num::bits(0x437f_0000, ar);
        let mid = Num::bits(0x4300_0000, ar);
        let mut i: usize = 0;
        while i < v.len()
            invariant
                i <= v@.len(),
                lo.ok(ar) && lo.e@ == bits(0),
                hi.ok(ar) && hi.e@ == bits(0x437f_0000),
                mid.ok(ar) && mid.e@ == bits(0x4300_0000),
                r.ok(ar) && g.ok(ar) && b.ok(ar),
                (r.e@, g.e@, b.e@) == yuv_sums(v@, i as nat),
            decreases v@.len() - i,
        {
            let s = v[i];
            let y = Num::of(s.y as i64, ar);
            let u = Num::of(s.u as i64, ar).minus(mid, ar);
            let w = Num::of(s.v as i64, ar).minus(mid, ar);
            let red = y.plus(Num::bits(0x3fb3_74bc, ar).times(w, ar), ar).clamp(lo, hi, ar);
            let green = y.minus(Num::bits(0x3eb0_3298, ar).times(u, ar), ar).minus(
                Num::bits(0x3f36_d19e, ar).times(w, ar),
                ar,
            ).clamp(lo, hi, ar);
            let blue = y.plus(Num::bits(0x3fe2_d0e5, ar).times(u, ar), ar).clamp(lo, hi, ar);
            r = r.plus(red, ar);
            g = g.plus(green, ar);
            b = b.plus(blue, ar);
            i += 1;
        }
        self.take(r, g, b, v.len() as u64, ar);
    }
}

/// The light, and when to probe for it.
#[derive(Clone, Copy, Debug, PartialEq, Eq, Structural)]
pub struct Scene {
    pub clock: ProbeClock,
    pub light: Light,
}

/// `n` is the light `o` after a probe of an image of three bytes a pixel.
pub open spec fn rgb_probed<R: Reals>(
    ar: &R,
    o: Light,
    rgb: Seq<u8>,
    w: int,
    h: int,
    n: Light,
) -> bool {
    let s = probe_sum(rgb, w, h);
    relit(
        ar,
        o,
        (Ex::Int(s.0 as i64), Ex::Int(s.1 as i64), Ex::Int(s.2 as i64)),
        s.3 as u64,
        n,
    )
}

/// The probed pixels of an image in three planes, row by row.
pub open spec fn samples_are(
    y: Plane,
    u: Plane,
    v: Plane,
    w: int,
    h: int,
    s: Seq<YuvSample>,
) -> bool {
    let step = probe_step(w, h);
    let ys = probed(step / 2, step, h);
    let xs = probed(step / 2, step, w);
    &&& s.len() == ys.len() * xs.len()
    &&& forall|i: int, j: int|
        #![trigger xs[i], ys[j]]
        0 <= i < xs.len() && 0 <= j < ys.len() ==> s[j * xs.len() + i] == yuv_at(
            y,
            u,
            v,
            xs[i],
            ys[j],
        )
}

pub open spec fn yuv_probed<R: Reals>(
    ar: &R,
    o: Light,
    y: Plane,
    u: Plane,
    v: Plane,
    w: int,
    h: int,
    n: Light,
) -> bool {
    exists|s: Seq<YuvSample>|
        #[trigger] samples_are(y, u, v, w, h, s) && relit(
            ar,
            o,
            yuv_sums(s, s.len()),
            s.len() as u64,
            n,
        )
}

pub open spec fn ticked(c: ProbeClock) -> ProbeClock {
    ProbeClock {
        counter: if c.counter == u32::MAX {
            0
        } else {
            (c.counter + 1) as u32
        },
    }
}

pub open spec fn due(c: ProbeClock) -> bool {
    ticked(c).counter % 8 == 1
}

impl Scene {
    pub fn new() -> (r: Scene)
        ensures
            r.clock.counter == 0,
            r.light.exposure.bits == 0x3f80_0000,
            r.light.r.bits == 0x3f80_0000,
            r.light.g.bits == 0x3f80_0000,
            r.light.b.bits == 0x3f80_0000,
    {
        Scene { clock: ProbeClock { counter: 0 }, light: Light::new() }
    }

    /// Probes an image in three planes on every eighth call.
    pub fn probe_scene_light<R: Reals>(
        &mut self,
        y: &Plane,
        u: &Plane,
        v: &Plane,
        width: usize,
        height: usize,
        ar: &R,
    )
        ensures
            final(self).clock == ticked(old(self).clock),
            if due(old(self).clock) {
                yuv_probed(
                    ar,
                    old(self).light,
                    *y,
                    *u,
                    *v,
                    width as int,
                    height as int,
                    final(self).light,
                )
            } else {
                final(self).light == old(self).light
            },
    {
        if self.clock.tick() {
            let s = probe_yuv(y, u, v, width, height);
            assert(samples_are(*y, *u, *v, width as int, height as int, s@));
            self.light.take_yuv(&s, ar);
        }
    }

    /// Probes an image of three bytes a pixel on every eighth call.
    pub fn probe_scene_light_rgb<R: Reals>(
        &mut self,
        rgb: &[u8],
        width: usize,
        height: usize,
        ar: &R,
    )
        ensures
            final(self).clock == ticked(old(self).clock),
            if due(old(self).clock) {
                rgb_probed(
                    ar,
                    old(self).light,
                    rgb@,
                    width as int,
                    height as int,
                    final(self).light,
                )
            } else {
                final(self).light == old(self).light
            },
    {
        if self.clock.tick() {
            self.probe_scene_light_rgb_now(rgb, width, height, ar);
        }
    }

    /// Probes an image of three bytes a pixel, for callers that keep the pace.
    pub fn probe_scene_light_rgb_now<R: Reals>(
        &mut self,
        rgb: &[u8],
        width: usize,
        height: usize,
        ar: &R,
    )
        ensures
            final(self).clock == old(self).clock,
            rgb_probed(
                ar,
                old(self).light,
                rgb@,
                width as int,
                height as int,
                final(self).light,
            ),
    {
        let s = probe_rgb(rgb, width, height);
        self.light.take_rgb(&s, ar);
    }
}

/// Of eight calls in a row one probes.
pub proof fn law_one_probe_in_eight(c: ProbeClock)
    requires
        c.counter <= u32::MAX - 8,
    ensures
        exists|k: int|
            0 <= k < 8 && #[trigger] due(ProbeClock { counter: (c.counter + k) as u32 }),
        forall|j: int, k: int|
            0 <= j < 8 && 0 <= k < 8 && #[trigger] due(
                ProbeClock { counter: (c.counter + j) as u32 },
            ) && #[trigger] due(ProbeClock { counter: (c.counter + k) as u32 }) ==> j == k,
{
    let k = (8 - c.counter as int % 8) % 8;
    assert((c.counter + k) % 8 == 0);
    assert(due(ProbeClock { counter: (c.counter + k) as u32 }));
}

// ---- what the camera block holds ----

/// Length of the direction (-0.4, 1, 1) to the key light.
pub open spec fn key_length() -> Ex {
    bits(0x3ecc_cccd).times(bits(0x3ecc_cccd)).plus(bits(0x3f80_0000)).plus(
        bits(0x3f80_0000),
    ).sqrt()
}

/// Half of the tint of the light.
pub open spec fn softened(t: F32) -> Ex {
    bits(0x3f80_0000).minus(bits(0x3f80_0000).minus(val(t)).times(bits(0x3f00_0000)))
}

/// The 24 numbers of the camera block: the projection, the direction of the key
/// light with the exposure, and its colour.
pub open spec fn camera_is<R: Reals>(
    ar: &R,
    aspect: F32,
    light: Light,
    proj: Mat4,
    out: Seq<F32>,
) -> bool {
    &&& out.len() == 24
    &&& projected_is(
        ar,
        F32 { bits: CAMERA_ANGLE },
        aspect,
        F32 { bits: 0x3f80_0000 },
        F32 { bits: 0x461c_4000 },
        proj,
    )
    &&& forall|i: int| 0 <= i < 16 ==> #[trigger] out[i] == proj.m@[i]
    &&& eval(ar, bits(0xbecc_cccd).over(key_length()), out[16])
    &&& eval(ar, bits(0x3f80_0000).over(key_length()), out[17])
    &&& eval(ar, bits(0x3f80_0000).over(key_length()), out[18])
    &&& out[19] == light.exposure
    &&& eval(ar, softened(light.r), out[20])
    &&& eval(ar, softened(light.g), out[21])
    &&& eval(ar, softened(light.b), out[22])
    &&& out[23] == F32 { bits: 0 }
}

pub open spec fn camera_block<R: Reals>(
    ar: &R,
    vw: u32,
    vh: u32,
    light: Light,
    out: Seq<F32>,
) -> bool {
    exists|aspect: F32, proj: Mat4|
        {
            &&& eval(ar, Ex::Int(vw as i64).over(Ex::Int(vh as i64)), aspect)
            &&& #[trigger] camera_is(ar, aspect, light, proj, out)
        }
}

fn soft<R: Reals>(t: F32, ar: &R) -> (r: F32)
    ensures
        eval(ar, softened(t), r),
{
    let one = Num::bits(0x3f80_0000, ar);
    one.minus(one.minus(Num::new(t, ar), ar).times(Num::bits(0x3f00_0000, ar), ar), ar).v
}

fn push_matrix(out: &mut Vec<F32>, m: &Mat4)
    ensures
        final(out)@ == old(out)@ + m.m@,
{
    let ghost was = out@;
    let mut i: usize = 0;
    while i < 16
        invariant
            i <= 16,
            out@ == was + m.m@.subrange(0, i as int),
        decreases 16 - i,
    {
        out.push(m.m[i]);
        assert(m.m@.subrange(0, i + 1) == m.m@.subrange(0, i as int).push(m.m@[i as int]));
        i += 1;
    }
    assert(m.m@.subrange(0, 16) == m.m@);
}

/// The numbers of the camera block of a frame of this size.
pub fn camera_uniform<R: Reals>(vw: u32, vh: u32, light: &Light, ar: &R) -> (out: Vec<F32>)
    ensures
        camera_block(ar, vw, vh, *light, out@),
{
    let aspect = Num::of(vw as i64, ar).over(Num::of(vh as i64, ar), ar).v;
    let proj = mat_perspective(
        F32 { bits: CAMERA_ANGLE },
        aspect,
        F32 { bits: 0x3f80_0000 },
        F32 { bits: 0x461c_4000 },
        ar,
    );
    let side = Num::bits(0x3ecc_cccd, ar);
    let one = Num::bits(0x3f80_0000, ar);
    let len = side.times(side, ar).plus(one, ar).plus(one, ar).sqrt(ar);
    let mut out: Vec<F32> = Vec::new();
    push_matrix(&mut out, &proj);
    out.push(Num::bits(0xbecc_cccd, ar).over(len, ar).v);
    out.push(one.over(len, ar).v);
    out.push(one.over(len, ar).v);
    out.push(light.exposure);
    out.push(soft(light.r, ar));
    out.push(soft(light.g, ar));
    out.push(soft(light.b, ar));
    out.push(F32 { bits: 0 });
    assert(camera_is(ar, aspect, *light, proj, out@));
    out
}

// ---- what the block of a surface holds ----

/// How a surface looks.
#[derive(Clone, Copy, Debug, PartialEq, Eq, Structural)]
pub struct Look {
    pub red: F32,
    pub green: F32,
    pub blue: F32,
    pub alpha: F32,
    pub metallic: F32,
    pub roughness: F32,
    pub textured: bool,
    /// Which way the shader takes.
    pub mode: F32,
    pub rough_map: bool,
    pub normal_map: bool,
    pub normal_scale: F32,
    pub double_sided: bool,
    pub transmission: F32,
}

pub open spec fn flag(b: bool) -> F32 {
    if b {
        F32 { bits: 0x3f80_0000 }
    } else {
        F32 { bits: 0 }
    }
}

/// What follows the matrix in the block of a surface.
pub open spec fn look_words(l: Look) -> Seq<F32> {
    let none = F32 { bits: 0 };
    seq![
        l.red,
        l.green,
        l.blue,
        l.alpha,
        l.metallic,
        l.roughness,
        flag(l.textured),
        l.mode,
        flag(l.rough_map),
        flag(l.normal_map),
        l.normal_scale,
        flag(l.double_sided),
        l.transmission,
        none,
        none,
        none,
    ]
}

/// The 32 numbers of the block of a surface that stands at `local` on the face.
pub open spec fn mesh_block<R: Reals>(
    ar: &R,
    face: Mat4,
    local: Mat4,
    l: Look,
    out: Seq<F32>,
) -> bool {
    exists|m: Mat4| #[trigger] product_is(ar, face, local, m) && out == m.m@ + look_words(l)
}

fn flagged(b: bool) -> (r: F32)
    ensures
        r == flag(b),
{
    if b {
        F32 { bits: 0x3f80_0000 }
    } else {
        F32 { bits: 0 }
    }
}

/// The numbers of the block of a surface.
pub fn mesh_uniform<R: Reals>(face: &Mat4, local: &Mat4, l: &Look, ar: &R) -> (out: Vec<F32>)
    ensures
        mesh_block(ar, *face, *local, *l, out@),
        out@.len() == 32,
{
    let m = mat_mul(face, local, ar);
    let mut out: Vec<F32> = Vec::new();
    push_matrix(&mut out, &m);
    out.push(l.red);
    out.push(l.green);
    out.push(l.blue);
    out.push(l.alpha);
    out.push(l.metallic);
    out.push(l.roughness);
    out.push(flagged(l.textured));
    out.push(l.mode);
    out.push(flagged(l.rough_map));
    out.push(flagged(l.normal_map));
    out.push(l.normal_scale);
    out.push(flagged(l.double_sided));
    out.push(l.transmission);
    out.push(F32 { bits: 0 });
    out.push(F32 { bits: 0 });
    out.push(F32 { bits: 0 });
    assert(product_is(ar, *face, *local, m));
    assert(out@ =~= m.m@ + look_words(*l));
    out
}

} // verus!
