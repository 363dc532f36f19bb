//! Effect parameters: a partial patch is merged into the state. A field that is
//! absent keeps its value, one that is null is switched off, any other is set.

use crate::ieee::F32;
use crate::names::same_text;
use crate::reals::Reals;
use crate::trace::Num;
use vstd::prelude::*;
use vstd::string::*;

verus! {

use crate::trace::{bits, eval, val};


pub const ONE: u32 = 0x3f80_0000;

pub const TWO: u32 = 0x4000_0000;

/// A colour, 255 for full light.
#[derive(Clone, Copy, Debug, PartialEq, Eq, Structural)]
pub struct Rgb {
    pub r: u8,
    pub g: u8,
    pub b: u8,
}

/// What stands behind the person.
#[derive(Clone, Copy, Debug, PartialEq, Eq, Structural)]
pub enum Background {
    /// The room itself.
    Plain,
    Color(Rgb),
    /// The uploaded image.
    Image,
}

/// One lamp.
#[derive(Clone, Debug)]
pub struct StudioLight {
    pub enabled: bool,
    pub x: F32,
    pub y: F32,
    /// "#rrggbb".
    pub color: String,
    pub intensity: F32,
    pub radius: F32,
    /// "person", "background" or "all".
    pub target: String,
}

impl Default for StudioLight {
    fn default() -> (r: Self)
        ensures
            r.enabled,
            r.x.bits == 0x3f00_0000,
            r.y.bits == 0x3e99_999a,
            r.color@ == "#ffffff"@,
            r.intensity.bits == 0x3f4c_cccd,
            r.radius.bits == 0x3f00_0000,
            r.target@ == "all"@,
    {
        StudioLight {
            enabled: true,
            x: F32 { bits: 0x3f00_0000 },
            y: F32 { bits: 0x3e99_999a },
            color: "#ffffff".to_owned(),
            intensity: F32 { bits: 0x3f4c_cccd },
            radius: F32 { bits: 0x3f00_0000 },
            target: "all".to_owned(),
        }
    }
}

#[derive(Clone, Debug)]
pub struct StudioLightOptions {
    pub enabled: bool,
    pub ambient: F32,
    /// Two at most are lit; the rest are ignored.
    pub lights: Vec<StudioLight>,
}

impl Default for StudioLightOptions {
    fn default() -> (r: Self)
        ensures
            !r.enabled,
            r.ambient.bits == ONE,
            r.lights@ == Seq::<StudioLight>::empty(),
    {
        StudioLightOptions {
            enabled: false,
            ambient: F32 { bits: ONE },
            lights: Vec::new(),
        }
    }
}

/// A partial change.
pub struct EffectsPatch {
    /// Null for no background, "#rrggbb" for a colour, "image" for the uploaded
    /// one.
    pub background: Option<Option<String>>,
    /// 0 to 1, of the background.
    pub blur: Option<Option<F32>>,
    /// 1 leaves the background as it is.
    pub brightness: Option<Option<F32>>,
    /// 0 to 1, of the background.
    pub grayscale: Option<Option<F32>>,
    pub studio_light: Option<Option<StudioLightOptions>>,
}

impl Default for EffectsPatch {
    fn default() -> (r: Self)
        ensures
            r.background is None,
            r.blur is None,
            r.brightness is None,
            r.grayscale is None,
            r.studio_light is None,
    {
        EffectsPatch {
            background: None,
            blur: None,
            brightness: None,
            grayscale: None,
            studio_light: None,
        }
    }
}

/// What the pipeline reads at every frame.
#[derive(Clone, Debug)]
pub struct EffectsState {
    pub background: Background,
    pub blur: F32,
    pub brightness: F32,
    pub grayscale: F32,
    pub studio_light: Option<StudioLightOptions>,
}

impl Default for EffectsState {
    fn default() -> (r: Self)
        ensures
            r == neutral(),
    {
        EffectsState {
            background: Background::Plain,
            blur: F32 { bits: 0 },
            brightness: F32 { bits: ONE },
            grayscale: F32 { bits: 0 },
            studio_light: None,
        }
    }
}

/// The state in which nothing is changed.
pub open spec fn neutral() -> EffectsState {
    EffectsState {
        background: Background::Plain,
        blur: F32 { bits: 0 },
        brightness: F32 { bits: ONE },
        grayscale: F32 { bits: 0 },
        studio_light: None,
    }
}

// ---- colours ----

/// The value of a hexadecimal digit, either case.
pub open spec fn digit_of(c: char) -> Option<int> {
    if '0' <= c <= '9' {
        Some(c as int - '0' as int)
    } else if 'a' <= c <= 'f' {
        Some(c as int - 'a' as int + 10)
    } else if 'A' <= c <= 'F' {
        Some(c as int - 'A' as int + 10)
    } else {
        None
    }
}

/// The number that digits write; none where one of them is no digit.
pub open spec fn digits_of(s: Seq<char>) -> Option<int>
    decreases s.len(),
{
    if s.len() == 0 {
        Some(0)
    } else {
        match (digits_of(s.drop_last()), digit_of(s.last())) {
            (Some(n), Some(d)) => Some(16 * n + d),
            _ => None,
        }
    }
}

/// The text without a plus sign in front of something.
pub open spec fn unsigned(s: Seq<char>) -> Seq<char> {
    if s.len() > 1 && s[0] == '+' {
        s.skip(1)
    } else {
        s
    }
}

/// The word that a text writes in hexadecimal: at least one digit, a plus sign
/// in front or none.
pub open spec fn word_of(s: Seq<char>) -> Option<u32> {
    let t = unsigned(s);
    if t.len() == 0 {
        None
    } else {
        match digits_of(t) {
            Some(n) => if n <= u32::MAX {
                Some(n as u32)
            } else {
                None
            },
            None => None,
        }
    }
}

pub open spec fn rgb_of_word(v: u32) -> Rgb {
    Rgb { r: (v / 65536 % 256) as u8, g: (v / 256 % 256) as u8, b: (v % 256) as u8 }
}

/// The colour that "#rrggbb" writes.
pub open spec fn color_of(s: Seq<char>) -> Option<Rgb> {
    if s.len() >= 1 && s[0] == '#' {
        match word_of(s.skip(1)) {
            Some(v) => Some(rgb_of_word(v)),
            None => None,
        }
    } else {
        None
    }
}

fn digit(c: char) -> (r: Option<u64>)
    ensures
        match r {
            Some(d) => digit_of(c) == Some(d as int) && d < 16,
            None => digit_of(c) is None,
        },
{
    if '0' <= c && c <= '9' {
        Some(c as u64 - '0' as u64)
    } else if 'a' <= c && c <= 'f' {
        Some(c as u64 - 'a' as u64 + 10)
    } else if 'A' <= c && c <= 'F' {
        Some(c as u64 - 'A' as u64 + 10)
    } else {
        None
    }
}

proof fn lemma_digits_prefix(s: Seq<char>, n: int)
    requires
        0 <= n <= s.len(),
    ensures
        digits_of(s.take(n)) is None ==> digits_of(s) is None,
        digits_of(s) matches Some(v) ==> digits_of(s.take(n)) matches Some(u) && 0 <= u <= v,
    decreases s.len() - n, s.len(),
{
    if n == s.len() {
        assert(s.take(n) =~= s);
        lemma_digits_sign(s);
    } else {
        let t = s.take(n + 1);
        assert(t.drop_last() =~= s.take(n));
        lemma_digits_sign(s.take(n));
        lemma_digits_sign(t);
        lemma_digits_prefix(s, n + 1);
    }
}

proof fn lemma_digits_sign(s: Seq<char>)
    ensures
        digits_of(s) matches Some(v) ==> v >= 0,
    decreases s.len(),
{
    if s.len() > 0 {
        lemma_digits_sign(s.drop_last());
    }
}

/// The colour that "#rrggbb" writes.
pub fn parse_hex(s: &str) -> (r: Option<Rgb>)
    ensures
        r == color_of(s@),
{
    let n: usize = s.unicode_len();
    if n == 0 || s.get_char(0) != '#' {
        return None;
    }
    let mut i: usize = 1;
    let ghost w = s@.skip(1);
    if n > 2 && s.get_char(1) == '+' {
        i = 2;
    }
    let ghost from = i as int;
    let ghost t = s@.skip(from);
    assert(t =~= unsigned(w));
    if i == n {
        return None;
    }
    let mut v: u64 = 0;
    assert(t.take(0) =~= Seq::<char>::empty());
    while i < n
        invariant
            1 <= from <= i <= n,
            n == s@.len(),
            t == s@.skip(from),
            t.len() > 0,
            w == s@.skip(1),
            t == unsigned(w),
            s@[0] == '#',
            digits_of(t.take(i - from)) == Some(v as int),
            v <= 0xffff_ffff,
        decreases n - i,
    {
        proof {
            let p = t.take(i - from + 1);
            assert(p.drop_last() =~= t.take(i - from));
            assert(p.last() == s@[i as int]);
            lemma_digits_prefix(t, i - from + 1);
        }
        match digit(s.get_char(i)) {
            Some(d) => {
                v = 16 * v + d;
            },
            None => {
                return None;
            },
        }
        if v > 0xffff_ffff {
            return None;
        }
        i += 1;
    }
    assert(t.take(t.len() as int) =~= t);
    let v: u32 = v as u32;
    Some(Rgb { r: (v / 65536 % 256) as u8, g: (v / 256 % 256) as u8, b: (v % 256) as u8 })
}

// ---- merging ----

/// The background that a patch field asks for; an unreadable colour is none.
pub open spec fn background_of(b: Option<Seq<char>>) -> Background {
    match b {
        None => Background::Plain,
        Some(s) => if s == "image"@ {
            Background::Image
        } else {
            match color_of(s) {
                Some(c) => Background::Color(c),
                None => Background::Plain,
            }
        },
    }
}

pub open spec fn text(s: Option<String>) -> Option<Seq<char>> {
    match s {
        Some(t) => Some(t@),
        None => None,
    }
}

/// A strength after a patch field: null gives the neutral one, a number is cut to
/// the range.
pub open spec fn merged(v: Option<Option<F32>>, old: F32, off: u32, hi: u32) -> F32 {
    match v {
        Some(Some(x)) => x.clamped(F32 { bits: 0 }, F32 { bits: hi }),
        Some(None) => F32 { bits: off },
        None => old,
    }
}

/// The state after a patch.
pub open spec fn applied(s: EffectsState, p: EffectsPatch) -> EffectsState {
    EffectsState {
        background: match p.background {
            Some(b) => background_of(text(b)),
            None => s.background,
        },
        blur: merged(p.blur, s.blur, 0, ONE),
        brightness: merged(p.brightness, s.brightness, ONE, TWO),
        grayscale: merged(p.grayscale, s.grayscale, 0, ONE),
        studio_light: match p.studio_light {
            Some(Some(o)) => if o.enabled {
                Some(o)
            } else {
                None
            },
            Some(None) => None,
            None => s.studio_light,
        },
    }
}

fn merge(v: Option<Option<F32>>, was: F32, off: u32, hi: u32) -> (r: F32)
    requires
        0 < hi < 0x7f80_0000,
    ensures
        r == merged(v, was, off, hi),
{
    match v {
        Some(Some(x)) => x.clamp(F32 { bits: 0 }, F32 { bits: hi }),
        Some(None) => F32 { bits: off },
        None => was,
    }
}

/// `d` are the values that follow the blur `b`: 2 + 3.2 b and 0.1 + 0.36 b for the
/// mask's widths, 0.3 - 0.05 b and 0.7 + 0.05 b for the cover, within 0.01 and 0.99,
/// 0.05 + 0.1 b for the light, and two that follow the background.
pub open spec fn derived_is<R: Reals>(ar: &R, s: EffectsState, d: Derived) -> bool {
    let b = val(s.blur);
    &&& eval(ar, bits(TWO).plus(b.times(bits(0x404c_cccd))), d.sigma_space)
    &&& eval(ar, bits(0x3dcc_cccd).plus(b.times(bits(0x3eb8_51ec))), d.sigma_color)
    &&& eval(
        ar,
        bits(0x3e99_999a).minus(b.times(bits(0x3d4c_cccd))).max(bits(0x3c23_d70a)),
        d.coverage_lo,
    )
    &&& eval(
        ar,
        bits(0x3f33_3333).plus(b.times(bits(0x3d4c_cccd))).min(bits(0x3f7d_70a4)),
        d.coverage_hi,
    )
    &&& eval(ar, bits(0x3d4c_cccd).plus(b.times(bits(0x3dcc_cccd))), d.light_wrapping)
    &&& d.spill.bits == (if s.background == Background::Image {
        0x3e38_51ecu32
    } else {
        0x3e0f_5c29
    })
    &&& d.edge_darkening.bits == (if s.background == Background::Image {
        0x3e75_c28fu32
    } else {
        0x3e4c_cccd
    })
}

/// Values that follow the strength of the blur.
#[derive(Clone, Copy, Debug, PartialEq, Eq, Structural)]
pub struct Derived {
    pub sigma_space: F32,
    pub sigma_color: F32,
    pub coverage_lo: F32,
    pub coverage_hi: F32,
    pub light_wrapping: F32,
    pub spill: F32,
    pub edge_darkening: F32,
}

impl EffectsState {
    /// Merges a patch.
    pub fn apply(&mut self, patch: EffectsPatch)
        ensures
            *final(self) == applied(*old(self), patch),
    {
        if let Some(bg) = &patch.background {
            self.background = match bg {
                None => Background::Plain,
                Some(s) => if same_text(s.as_str(), "image") {
                    Background::Image
                } else {
                    match parse_hex(s.as_str()) {
                        Some(c) => Background::Color(c),
                        None => Background::Plain,
                    }
                },
            };
        }
        self.blur = merge(patch.blur, self.blur, 0, ONE);
        self.brightness = merge(patch.brightness, self.brightness, ONE, TWO);
        self.grayscale = merge(patch.grayscale, self.grayscale, 0, ONE);
        if let Some(sl) = patch.studio_light {
            self.studio_light = match sl {
                Some(o) => if o.enabled {
                    Some(o)
                } else {
                    None
                },
                None => None,
            };
        }
    }

    /// The colour of a lamp; white where it cannot be read.
    pub fn hex_rgb(s: &str) -> (r: Rgb)
        ensures
            r == (match color_of(s@) {
                Some(c) => c,
                None => Rgb { r: 255, g: 255, b: 255 },
            }),
    {
        match parse_hex(s) {
            Some(c) => c,
            None => Rgb { r: 255, g: 255, b: 255 },
        }
    }

    /// Whether any effect changes the picture.
    pub open spec fn changes(&self) -> bool {
        self.background != Background::Plain || (F32 { bits: 0 }).less(self.blur) || !(
        self.brightness.less_eq(F32 { bits: ONE }) && (F32 { bits: ONE }).less_eq(self.brightness))
            || (F32 { bits: 0 }).less(self.grayscale) || self.studio_light is Some
    }

    pub fn any_active(&self) -> (r: bool)
        ensures
            r == self.changes(),
    {
        let zero = F32 { bits: 0 };
        let one = F32 { bits: ONE };
        let plain = match self.background {
            Background::Plain => true,
            _ => false,
        };
        !plain || zero.lt(self.blur) || !(self.brightness.le(one) && one.le(self.brightness))
            || zero.lt(self.grayscale) || self.studio_light.is_some()
    }

    /// The values that follow the blur.
    pub fn derived<R: Reals>(&self, ar: &R) -> (r: Derived)
        ensures
            derived_is(ar, *self, r),
    {
        let b = Num::new(self.blur, ar);
        let image = match self.background {
            Background::Image => true,
            _ => false,
        };
        Derived {
            sigma_space: Num::bits(TWO, ar).plus(b.times(Num::bits(0x404c_cccd, ar), ar), ar).v,
            sigma_color: Num::bits(0x3dcc_cccd, ar).plus(
                b.times(Num::bits(0x3eb8_51ec, ar), ar),
                ar,
            ).v,
            coverage_lo: Num::bits(0x3e99_999a, ar).minus(
                b.times(Num::bits(0x3d4c_cccd, ar), ar),
                ar,
            ).max(Num::bits(0x3c23_d70a, ar), ar).v,
            coverage_hi: Num::bits(0x3f33_3333, ar).plus(
                b.times(Num::bits(0x3d4c_cccd, ar), ar),
                ar,
            ).min(Num::bits(0x3f7d_70a4, ar), ar).v,
            light_wrapping: Num::bits(0x3d4c_cccd, ar).plus(
                b.times(Num::bits(0x3dcc_cccd, ar), ar),
                ar,
            ).v,
            spill: F32 { bits: if image { 0x3e38_51ec } else { 0x3e0f_5c29 } },
            edge_darkening: F32 { bits: if image { 0x3e75_c28f } else { 0x3e4c_cccd } },
        }
    }
}

/// A patch without fields changes nothing.
pub proof fn law_empty_patch_keeps(s: EffectsState, p: EffectsPatch)
    requires
        p.background is None,
        p.blur is None,
        p.brightness is None,
        p.grayscale is None,
        p.studio_light is None,
    ensures
        applied(s, p) == s,
{
}

/// Applying a patch a second time changes nothing more.
pub proof fn law_patch_is_idempotent(s: EffectsState, p: EffectsPatch)
    ensures
        applied(applied(s, p), p) == applied(s, p),
{
}

/// Each field is merged on its own: where two patches touch different fields,
/// their order does not matter.
pub proof fn law_disjoint_patches_commute(s: EffectsState, p: EffectsPatch, q: EffectsPatch)
    requires
        p.background is None || q.background is None,
        p.blur is None || q.blur is None,
        p.brightness is None || q.brightness is None,
        p.grayscale is None || q.grayscale is None,
        p.studio_light is None || q.studio_light is None,
    ensures
        applied(applied(s, p), q) == applied(applied(s, q), p),
{
}

/// Null switches an effect off, whatever it was: each field is neutral again.
pub proof fn law_null_switches_off(s: EffectsState, p: EffectsPatch)
    ensures
        p.background == Some(None::<String>) ==> applied(s, p).background == Background::Plain,
        p.blur == Some(None::<F32>) ==> applied(s, p).blur == neutral().blur,
        p.brightness == Some(None::<F32>) ==> applied(s, p).brightness == neutral().brightness,
        p.grayscale == Some(None::<F32>) ==> applied(s, p).grayscale == neutral().grayscale,
        p.studio_light == Some(None::<StudioLightOptions>) ==> applied(s, p).studio_light is None,
{
}

/// A state whose strengths are in range stays in range under any patch of
/// numbers.
pub open spec fn in_range(s: EffectsState) -> bool {
    let zero = F32 { bits: 0 };
    let one = F32 { bits: ONE };
    let two = F32 { bits: TWO };
    &&& zero.less_eq(s.blur) && s.blur.less_eq(one)
    &&& zero.less_eq(s.brightness) && s.brightness.less_eq(two)
    &&& zero.less_eq(s.grayscale) && s.grayscale.less_eq(one)
}

pub open spec fn number(v: Option<Option<F32>>) -> bool {
    match v {
        Some(Some(x)) => !x.nan(),
        _ => true,
    }
}

pub proof fn law_strengths_stay_in_range(s: EffectsState, p: EffectsPatch)
    requires
        in_range(s),
        number(p.blur),
        number(p.brightness),
        number(p.grayscale),
    ensures
        in_range(applied(s, p)),
        in_range(neutral()),
{
}

/// In the neutral state nothing is active.
pub proof fn law_neutral_is_inactive()
    ensures
        !neutral().changes(),
{
}

} // verus!
