//! The conversion engine: the hub color representation and the pairwise
//! conversion functions between the four color spaces.
//!
//! Every conversion is routed through [`ColorHCMA`], the hub: hue, chroma
//! (difference between the largest and smallest RGB channel), minimum
//! channel value, and alpha. Each space has one encoder into the hub and
//! one decoder out of it, and a conversion from space A to space B is the
//! composition `decode_B(encode_A(color))`; no direct pairwise formula
//! exists.
//!
//! The exact value of every encoder and decoder is pinned down by a spec
//! function over the fixed-point components ([`hub_of_hsv`] and friends);
//! the rounding of each division is part of that statement.

use vstd::prelude::*;

use crate::definitions::{
    in_hue, in_unit, ColorHSIA, ColorHSLA, ColorHSVA, ColorRGBA, UNIT,
};
use crate::math::{
    div_round, div_round_u64, lemma_div_round, lemma_div_round_le, lemma_div_round_monotone,
};

verus! {

/// Selects among three channels by index 0, 1, 2.
pub open spec fn sel3(x0: int, x1: int, x2: int, i: int) -> int {
    if i == 0 {
        x0
    } else if i == 1 {
        x1
    } else {
        x2
    }
}

/// The hexagonal sector waveform evaluated at hue `h`: the scaled value of
/// `1 - |(6 h mod 2) - 1|`, a triangle wave that rises from 0 to `UNIT`
/// over each even sector and falls back to 0 over each odd one.
pub open spec fn hexz(h: int) -> int {
    let r2 = (6 * h) % (2 * UNIT);
    if r2 <= UNIT {
        r2
    } else {
        2 * UNIT - r2
    }
}

/// What encoding an HSV color into the hub yields:
/// `c = v * s`, `m = v - c`, hue and alpha pass through.
pub open spec fn hub_of_hsv(h: int, s: int, v: int, a: int) -> (int, int, int, int) {
    let c = div_round(v * s, UNIT as int);
    (h, c, v - c, a)
}

/// What decoding the hub into HSV yields:
/// `v = m + c`, `s = c / v` guarded to 0 for pure black.
pub open spec fn hsv_of_hub(h: int, c: int, m: int, a: int) -> (int, int, int, int) {
    let v = m + c;
    let s = if v == 0 {
        0
    } else {
        div_round(c * (UNIT as int), v)
    };
    (h, s, v, a)
}

/// The index of the smallest RGB channel under the engine's fixed
/// tie-break: channel 0 is smallest only when it is strictly smaller than
/// both others, channel 1 only when it is strictly smaller than channel 2,
/// and channel 2 otherwise. Ties therefore resolve to the highest index,
/// deterministically.
pub open spec fn rgb_min_index(r: int, g: int, b: int) -> int {
    if r < g && r < b {
        0
    } else if g < b {
        1
    } else {
        2
    }
}

/// The index of the largest RGB channel under the engine's fixed
/// tie-break; ties resolve to the lowest index among the channels left
/// after the minimum was picked.
pub open spec fn rgb_max_index(r: int, g: int, b: int) -> int {
    if r < g && r < b {
        if g < b {
            2
        } else {
            1
        }
    } else if g < b {
        if r < b {
            2
        } else {
            0
        }
    } else {
        if r < g {
            1
        } else {
            0
        }
    }
}

/// What encoding an RGB color into the hub yields. `m` is the smallest
/// channel and `c` the difference between the largest and the smallest. A
/// gray color (`c == 0`) has hue 0 by convention. Otherwise the hue is the
/// standard six-sector formula: sector pair `maj` from the index of the
/// smallest channel, a rising or falling fractional part from the middle
/// channel, the whole scaled into `[0, UNIT)`. The final division rounds
/// down, which keeps the hue strictly below `UNIT`.
pub open spec fn hub_of_rgb(r: int, g: int, b: int, a: int) -> (int, int, int, int) {
    let imin = rgb_min_index(r, g, b);
    let imax = rgb_max_index(r, g, b);
    let m = sel3(r, g, b, imin);
    let c = sel3(r, g, b, imax) - m;
    if c == 0 {
        (0, 0, m, a)
    } else {
        let maj = (imin + 1) % 3;
        let minor = ((imax + 3 - imin) % 3) - 1;
        let x = sel3(r, g, b, (maj + ((minor + 1) % 2)) % 3) - m;
        let t = if minor == 0 {
            x
        } else {
            2 * c - x
        };
        (((2 * maj * c + t) * (UNIT as int)) / (6 * c), c, m, a)
    }
}

/// What decoding the hub into RGB yields: the inverse of the sector logic
/// of [`hub_of_rgb`]. The secondary channel is `x = c * z` with `z` the
/// hexagonal waveform at the hue; the hue sector selects which channel
/// gets `c`, which gets `x` and which gets 0; `m` is added to all three.
pub open spec fn rgb_of_hub(h: int, c: int, m: int, a: int) -> (int, int, int, int) {
    let hp6 = 6 * h;
    let r2 = hp6 % (2 * UNIT);
    let x = div_round(c * hexz(h), UNIT as int);
    let i = hp6 / (2 * UNIT);
    let a0 = if r2 < UNIT {
        c
    } else {
        x
    };
    let a1 = if r2 < UNIT {
        x
    } else {
        c
    };
    (
        sel3(a0, a1, 0, (3 - i) % 3) + m,
        sel3(a0, a1, 0, (4 - i) % 3) + m,
        sel3(a0, a1, 0, (5 - i) % 3) + m,
        a,
    )
}

/// The distance between two hues measured around the circle: `0` and
/// `UNIT - 1` are one unit apart, not a full turn.
pub open spec fn hue_dist(a: int, b: int) -> int {
    let d = if a >= b {
        a - b
    } else {
        b - a
    };
    if 2 * d <= UNIT {
        d
    } else {
        UNIT - d
    }
}

/// The hue the RGB encoder computes splits into an exact sector base and a
/// floor-divided rest: `6 h == 2 maj UNIT + f` with `c f` within `6 c` of
/// the exact fraction `t UNIT`.
pub proof fn lemma_rgb_hue_decomposition(maj: int, t: int, c: int)
    ensures
        ({
            let u = UNIT as int;
            let h = ((2 * maj * c + t) * u) / (6 * c);
            let f = 6 * ((t * u) / (6 * c));
            (0 <= maj <= 2 && 0 <= t <= 2 * c && 0 < c) ==> (6 * h == 2 * maj * u + f && c * f
                <= t * u && t * u < c * f + 6 * c && 0 <= f <= 2 * u)
        }),
{
    let u = UNIT as int;
    if 0 <= maj <= 2 && 0 <= t <= 2 * c && 0 < c {
        let h = ((2 * maj * c + t) * u) / (6 * c);
        let q = (t * u) / (6 * c);
        crate::math::lemma_div_floor(t * u, 6 * c);
        assert(t * u + (maj * (u / 3)) * (6 * c) == (2 * maj * c + t) * u) by (nonlinear_arith)
            requires
                u == UNIT as int,
        ;
        vstd::arithmetic::div_mod::lemma_hoist_over_denominator(
            t * u,
            maj * (u / 3),
            (6 * c) as nat,
        );
        assert(h == maj * (u / 3) + q);
        assert(6 * (maj * (u / 3)) == 2 * maj * u) by (nonlinear_arith)
            requires
                u == UNIT as int,
        ;
        assert(c * (6 * q) <= t * u && t * u < c * (6 * q) + 6 * c) by (nonlinear_arith)
            requires
                t * u - 6 * c < (6 * c) * q <= t * u,
        ;
        assert(6 * q <= 2 * u && 0 <= q) by (nonlinear_arith)
            requires
                c * (6 * q) <= t * u,
                t <= 2 * c,
                0 < c,
                0 < u,
                0 <= q,
        ;
    }
}

/// The channel picked by [`rgb_min_index`] is a smallest channel and the
/// one picked by [`rgb_max_index`] a largest, and the two indices differ.
pub proof fn lemma_rgb_extremes(r: int, g: int, b: int)
    ensures
        sel3(r, g, b, rgb_min_index(r, g, b)) <= r,
        sel3(r, g, b, rgb_min_index(r, g, b)) <= g,
        sel3(r, g, b, rgb_min_index(r, g, b)) <= b,
        sel3(r, g, b, rgb_max_index(r, g, b)) >= r,
        sel3(r, g, b, rgb_max_index(r, g, b)) >= g,
        sel3(r, g, b, rgb_max_index(r, g, b)) >= b,
        rgb_min_index(r, g, b) != rgb_max_index(r, g, b),
{
}

/// What encoding an HSI color into the hub yields:
/// `c = 3 i s / (1 + z)` with `z` the hexagonal waveform at the hue,
/// `m = i (1 - s)`, hue and alpha pass through. A chroma beyond the gamut
/// (an HSI triple with no in-range RGB counterpart) is capped at `UNIT - m`.
pub open spec fn hub_of_hsi(h: int, s: int, i: int, a: int) -> (int, int, int, int) {
    let z = hexz(h);
    let m = div_round(i * (UNIT - s), UNIT as int);
    let craw = div_round(3 * i * s, UNIT + z);
    let c = if craw > UNIT - m {
        UNIT - m
    } else {
        craw
    };
    (h, c, m, a)
}

/// What decoding the hub into HSI yields: `i = m + c (1 + z) / 3` with `z`
/// the hexagonal waveform at the hue, `s = 1 - m / i` guarded to 0 for pure
/// black.
pub open spec fn hsi_of_hub(h: int, c: int, m: int, a: int) -> (int, int, int, int) {
    let z = hexz(h);
    let i = m + div_round(c * (UNIT + z), 3 * (UNIT as int));
    let s = if i == 0 {
        0
    } else {
        UNIT - div_round(m * (UNIT as int), i)
    };
    (h, s, i, a)
}

/// The lightness waveform at lightness `l`: the scaled value of
/// `1 - |2 l - 1|`, which is the widest chroma an HSL color of that
/// lightness can carry.
pub open spec fn lightz(l: int) -> int {
    if 2 * l <= UNIT {
        2 * l
    } else {
        2 * (UNIT - l)
    }
}

/// What encoding an HSL color into the hub yields:
/// `c = (1 - |2 l - 1|) * s`, `m = l - c / 2`, hue and alpha pass through.
pub open spec fn hub_of_hsl(h: int, s: int, l: int, a: int) -> (int, int, int, int) {
    let c = div_round(lightz(l) * s, UNIT as int);
    (h, c, l - div_round(c, 2), a)
}

/// What decoding the hub into HSL yields: `l = m + c / 2`,
/// `s = c / (1 - |2 l - 1|)` guarded to 0 for pure black and pure white and
/// capped at `UNIT`.
pub open spec fn hsl_of_hub(h: int, c: int, m: int, a: int) -> (int, int, int, int) {
    let l = m + div_round(c, 2);
    let z = lightz(l);
    let s = if z == 0 {
        0
    } else {
        let q = div_round(c * (UNIT as int), z);
        if q > UNIT {
            UNIT as int
        } else {
            q
        }
    };
    (h, s, l, a)
}

/// Selects among three channels by index 0, 1, 2.
fn sel3_exec(x0: u32, x1: u32, x2: u32, i: usize) -> (r: u32)
    ensures
        r == sel3(x0 as int, x1 as int, x2 as int, i as int),
{
    if i == 0 {
        x0
    } else if i == 1 {
        x1
    } else {
        x2
    }
}

/// Evaluates the hexagonal sector waveform at hue `h`.
fn hexz_exec(h: u32) -> (z: u32)
    requires
        in_hue(h as int),
    ensures
        z == hexz(h as int),
        z <= UNIT,
{
    let hp6: u64 = 6 * (h as u64);
    let r2: u64 = hp6 % (2 * (UNIT as u64));
    if r2 <= UNIT as u64 {
        r2 as u32
    } else {
        (2 * (UNIT as u64) - r2) as u32
    }
}

/// A color in the hue, chroma, minimum, alpha space, used to convert
/// between HSx and RGB colors.
#[derive(Debug, PartialEq, Eq, Structural, Clone, Copy)]
pub struct ColorHCMA {
    /// The hue component of the color
    h: u32,
    /// The chroma component of the color
    c: u32,
    /// The minimum channel value of the color
    m: u32,
    /// The alpha component of the color
    a: u32,
}

impl ColorHCMA {
    /// The hue component.
    pub closed spec fn hue(self) -> int {
        self.h as int
    }

    /// The chroma component.
    pub closed spec fn chroma(self) -> int {
        self.c as int
    }

    /// The minimum channel value.
    pub closed spec fn minv(self) -> int {
        self.m as int
    }

    /// The alpha component.
    pub closed spec fn alpha(self) -> int {
        self.a as int
    }

    /// All four components as a tuple, in the order hue, chroma, minimum,
    /// alpha.
    pub open spec fn parts(self) -> (int, int, int, int) {
        (self.hue(), self.chroma(), self.minv(), self.alpha())
    }

    /// The hue is an angle, chroma and minimum sum to at most the largest
    /// channel value `UNIT`, and alpha is in range; holds of every value of
    /// this type. A hub value always describes a color whose RGB channels
    /// are in range: the largest channel is `c + m`.
    #[verifier::type_invariant]
    pub open spec fn valid(self) -> bool {
        in_hue(self.hue()) && self.chroma() + self.minv() <= UNIT && in_unit(self.alpha())
    }

    /// Constructs a hub color from its four components; the caller attests
    /// that they are in range.
    pub fn new(h: u32, c: u32, m: u32, a: u32) -> (result: Self)
        requires
            in_hue(h as int),
            c + m <= UNIT,
            in_unit(a as int),
        ensures
            result.parts() == (h as int, c as int, m as int, a as int),
    {
        Self { h, c, m, a }
    }

    /// Retrieves the hue component of the color.
    pub fn get_hue(&self) -> (r: u32)
        ensures
            r == self.hue(),
    {
        self.h
    }

    /// Retrieves the chroma component of the color.
    pub fn get_chroma(&self) -> (r: u32)
        ensures
            r == self.chroma(),
    {
        self.c
    }

    /// Retrieves the minimum channel value of the color.
    pub fn get_min(&self) -> (r: u32)
        ensures
            r == self.minv(),
    {
        self.m
    }

    /// Retrieves the alpha component of the color.
    pub fn get_alpha(&self) -> (r: u32)
        ensures
            r == self.alpha(),
    {
        self.a
    }

    /// Converts from RGB.
    pub fn from_rgb(color: &ColorRGBA) -> (result: Self)
        ensures
            result.parts() == hub_of_rgb(
                color.red(),
                color.green(),
                color.blue(),
                color.alpha(),
            ),
    {
        proof {
            use_type_invariant(color);
            lemma_rgb_extremes(color.red(), color.green(), color.blue());
        }
        let r: u32 = color.get_red();
        let g: u32 = color.get_green();
        let b: u32 = color.get_blue();

        // The location of the smallest and the largest channel, with the
        // fixed tie-break of `rgb_min_index` and `rgb_max_index`.
        let (i_min, i_max): (usize, usize) = if r < g && r < b {
            (0, if g < b { 2 } else { 1 })
        } else if g < b {
            (1, if r < b { 2 } else { 0 })
        } else {
            (2, if r < g { 1 } else { 0 })
        };

        // The sector pair the hue falls in, and whether the fractional part
        // rises or falls within it.
        let hue_major: usize = (i_min + 1) % 3;
        let hue_minor: usize = (i_max + 3 - i_min) % 3 - 1;

        let m: u32 = sel3_exec(r, g, b, i_min);
        let c: u32 = sel3_exec(r, g, b, i_max) - m;
        let x: u32 = sel3_exec(r, g, b, (hue_major + (hue_minor + 1) % 2) % 3) - m;

        // A gray color carries no hue: report hue 0 and chroma 0.
        if c == 0 {
            return Self { h: 0, c: 0, m, a: color.get_alpha() };
        }
        let t: u64 = if hue_minor == 0 {
            x as u64
        } else {
            2 * (c as u64) - (x as u64)
        };
        proof {
            assert((2 * (hue_major as int) * (c as int) + t) * (UNIT as int) <= 6 * (c as int) * (
            UNIT as int)) by (nonlinear_arith)
                requires
                    0 <= c as int,
                    hue_major as int <= 2,
                    0 <= t as int <= 2 * (c as int),
                    0 < UNIT as int,
            ;
            if t == 2 * (c as int) {
                assert(hue_major as int <= 1);
                assert((2 * (hue_major as int) * (c as int) + t) * (UNIT as int) < 6 * (c as int)
                    * (UNIT as int)) by (nonlinear_arith)
                    requires
                        0 < c as int,
                        hue_major as int <= 1,
                        t as int == 2 * (c as int),
                        0 < UNIT as int,
                ;
            } else {
                assert((2 * (hue_major as int) * (c as int) + t) * (UNIT as int) < 6 * (c as int)
                    * (UNIT as int)) by (nonlinear_arith)
                    requires
                        0 < c as int,
                        hue_major as int <= 2,
                        0 <= t as int,
                        (t as int) < 2 * (c as int),
                        0 < UNIT as int,
                ;
            }
            crate::math::lemma_div_floor_lt(
                (2 * (hue_major as int) * (c as int) + t) * (UNIT as int),
                6 * (c as int),
                UNIT as int,
            );
            crate::math::lemma_div_floor(
                (2 * (hue_major as int) * (c as int) + t) * (UNIT as int),
                6 * (c as int),
            );
        }
        let num: u64 = (2 * (hue_major as u64) * (c as u64) + t) * (UNIT as u64);
        let h: u32 = (num / (6 * (c as u64))) as u32;
        Self { h, c, m, a: color.get_alpha() }
    }

    /// Converts to RGB.
    pub fn to_rgb(&self) -> (result: ColorRGBA)
        ensures
            result.parts() == rgb_of_hub(self.hue(), self.chroma(), self.minv(), self.alpha()),
    {
        proof {
            use_type_invariant(self);
        }
        let hp6: u64 = 6 * (self.h as u64);
        let r2: u64 = hp6 % (2 * (UNIT as u64));
        let z: u32 = hexz_exec(self.h);
        proof {
            assert((self.c as int) * (z as int) <= (UNIT as int) * (self.c as int))
                by (nonlinear_arith)
                requires
                    0 <= self.c as int,
                    0 <= z as int <= UNIT as int,
            ;
            lemma_div_round((self.c as int) * (z as int), UNIT as int);
            lemma_div_round_le((self.c as int) * (z as int), UNIT as int, self.c as int);
            crate::math::lemma_div_floor_lt(hp6 as int, 2 * (UNIT as int), 3);
            crate::math::lemma_div_floor(hp6 as int, 2 * (UNIT as int));
        }
        let x: u32 = div_round_u64((self.c as u64) * (z as u64), UNIT as u64) as u32;

        // The order of the channel values within the sector pair.
        let (a0, a1): (u32, u32) = if r2 < UNIT as u64 {
            (self.c, x)
        } else {
            (x, self.c)
        };

        // The sector pair: the negative rotation of the channel slots.
        let i: usize = (hp6 / (2 * (UNIT as u64))) as usize;

        ColorRGBA::new_unsafe(
            sel3_exec(a0, a1, 0, (3 - i) % 3) + self.m,
            sel3_exec(a0, a1, 0, (4 - i) % 3) + self.m,
            sel3_exec(a0, a1, 0, (5 - i) % 3) + self.m,
            self.a,
        )
    }

    /// Converts from HSV.
    pub fn from_hsv(color: &ColorHSVA) -> (result: Self)
        ensures
            result.parts() == hub_of_hsv(color.hue(), color.sat(), color.val(), color.alpha()),
    {
        proof {
            use_type_invariant(color);
        }
        let s: u32 = color.get_saturation();
        let v: u32 = color.get_value();
        proof {
            assert((v as int) * (s as int) <= (UNIT as int) * (v as int) && (v as int) * (
            s as int) <= (UNIT as int) * (UNIT as int)) by (nonlinear_arith)
                requires
                    0 <= v as int <= UNIT as int,
                    0 <= s as int <= UNIT as int,
            ;
            lemma_div_round_le((v as int) * (s as int), UNIT as int, v as int);
            lemma_div_round((v as int) * (s as int), UNIT as int);
        }
        let c64: u64 = div_round_u64((v as u64) * (s as u64), UNIT as u64);
        let c: u32 = c64 as u32;
        let m: u32 = v - c;
        Self { h: color.get_hue(), c, m, a: color.get_alpha() }
    }

    /// Converts from HSL.
    pub fn from_hsl(color: &ColorHSLA) -> (result: Self)
        ensures
            result.parts() == hub_of_hsl(color.hue(), color.sat(), color.light(), color.alpha()),
    {
        proof {
            use_type_invariant(color);
        }
        let s: u32 = color.get_saturation();
        let l: u32 = color.get_lightness();
        let z: u32 = if 2 * l <= UNIT {
            2 * l
        } else {
            2 * (UNIT - l)
        };
        proof {
            assert((z as int) * (s as int) <= (UNIT as int) * (z as int) && (z as int) * (
            s as int) <= (UNIT as int) * (UNIT as int)) by (nonlinear_arith)
                requires
                    0 <= z as int <= UNIT as int,
                    0 <= s as int <= UNIT as int,
            ;
            lemma_div_round_le((z as int) * (s as int), UNIT as int, z as int);
            lemma_div_round((z as int) * (s as int), UNIT as int);
        }
        let c64: u64 = div_round_u64((z as u64) * (s as u64), UNIT as u64);
        let c: u32 = c64 as u32;
        proof {
            lemma_div_round(c as int, 2);
            lemma_div_round_monotone(c as int, z as int, 2);
            lemma_div_round(z as int, 2);
        }
        let half: u32 = div_round_u64(c as u64, 2) as u32;
        proof {
            // half <= l in both lightness branches, and the chroma and
            // minimum stay inside the gamut: c + (l - half) <= UNIT.
            if 2 * l <= UNIT {
                assert(2 * (2 * (l as int)) + 2 <= 2 * 2 * (l as int) + 2);
                assert(div_round(z as int, 2) == l as int);
            } else {
                assert(div_round(z as int, 2) == (UNIT - l) as int);
            }
        }
        let m: u32 = l - half;
        Self { h: color.get_hue(), c, m, a: color.get_alpha() }
    }

    /// Converts to HSL.
    pub fn to_hsl(&self) -> (result: ColorHSLA)
        ensures
            result.parts() == hsl_of_hub(self.hue(), self.chroma(), self.minv(), self.alpha()),
    {
        proof {
            use_type_invariant(self);
            lemma_div_round(self.c as int, 2);
        }
        let half: u32 = div_round_u64(self.c as u64, 2) as u32;
        let l: u32 = self.m + half;
        let z: u32 = if 2 * l <= UNIT {
            2 * l
        } else {
            2 * (UNIT - l)
        };
        let s: u32 = if z == 0 {
            0
        } else {
            proof {
                assert((self.c as int) * (UNIT as int) <= (UNIT as int) * (UNIT as int))
                    by (nonlinear_arith)
                    requires
                        0 <= self.c as int <= UNIT as int,
                ;
                lemma_div_round((self.c as int) * (UNIT as int), z as int);
                lemma_div_round_le(
                    (self.c as int) * (UNIT as int),
                    z as int,
                    (UNIT as int) * (UNIT as int),
                );
            }
            let q64: u64 = div_round_u64((self.c as u64) * (UNIT as u64), z as u64);
            if q64 > UNIT as u64 {
                UNIT
            } else {
                q64 as u32
            }
        };
        ColorHSLA::new_unsafe(self.h, s, l, self.a)
    }

    /// Converts from HSI.
    pub fn from_hsi(color: &ColorHSIA) -> (result: Self)
        ensures
            result.parts() == hub_of_hsi(color.hue(), color.sat(), color.intens(), color.alpha()),
    {
        proof {
            use_type_invariant(color);
        }
        let s: u32 = color.get_saturation();
        let i: u32 = color.get_intensity();
        let z: u32 = hexz_exec(color.get_hue());
        proof {
            assert((i as int) * ((UNIT - s) as int) <= (UNIT as int) * (UNIT as int))
                by (nonlinear_arith)
                requires
                    0 <= i as int <= UNIT as int,
                    0 <= (UNIT - s) as int <= UNIT as int,
            ;
            assert((i as int) * ((UNIT - s) as int) <= (UNIT as int) * (i as int))
                by (nonlinear_arith)
                requires
                    0 <= i as int,
                    0 <= (UNIT - s) as int <= UNIT as int,
            ;
            lemma_div_round((i as int) * ((UNIT - s) as int), UNIT as int);
            lemma_div_round_le((i as int) * ((UNIT - s) as int), UNIT as int, i as int);
        }
        let m: u32 = div_round_u64((i as u64) * ((UNIT - s) as u64), UNIT as u64) as u32;
        proof {
            assert(3 * (i as int) * (s as int) <= 3 * (UNIT as int) * (UNIT as int))
                by (nonlinear_arith)
                requires
                    0 <= i as int <= UNIT as int,
                    0 <= s as int <= UNIT as int,
            ;
            assert(3 * (i as int) * (s as int) <= ((UNIT + z) as int) * (3 * (UNIT as int)))
                by (nonlinear_arith)
                requires
                    0 <= i as int <= UNIT as int,
                    0 <= s as int <= UNIT as int,
                    0 <= z as int,
            ;
            lemma_div_round(3 * (i as int) * (s as int), (UNIT + z) as int);
            lemma_div_round_le(3 * (i as int) * (s as int), (UNIT + z) as int, 3 * (UNIT as int));
        }
        let craw64: u64 = div_round_u64(3 * (i as u64) * (s as u64), (UNIT + z) as u64);
        let c: u32 = if craw64 > (UNIT - m) as u64 {
            UNIT - m
        } else {
            craw64 as u32
        };
        Self { h: color.get_hue(), c, m, a: color.get_alpha() }
    }

    /// Converts to HSI.
    pub fn to_hsi(&self) -> (result: ColorHSIA)
        ensures
            result.parts() == hsi_of_hub(self.hue(), self.chroma(), self.minv(), self.alpha()),
    {
        proof {
            use_type_invariant(self);
        }
        let z: u32 = hexz_exec(self.h);
        proof {
            assert((self.c as int) * ((UNIT + z) as int) <= 2 * (UNIT as int) * (UNIT as int))
                by (nonlinear_arith)
                requires
                    0 <= self.c as int <= UNIT as int,
                    0 <= z as int <= UNIT as int,
            ;
            assert((self.c as int) * ((UNIT + z) as int) <= (3 * (UNIT as int)) * (self.c as int))
                by (nonlinear_arith)
                requires
                    0 <= self.c as int,
                    0 <= z as int <= UNIT as int,
            ;
            lemma_div_round((self.c as int) * ((UNIT + z) as int), 3 * (UNIT as int));
            lemma_div_round_le(
                (self.c as int) * ((UNIT + z) as int),
                3 * (UNIT as int),
                self.c as int,
            );
        }
        let q: u32 = div_round_u64((self.c as u64) * ((UNIT + z) as u64), 3 * (UNIT as u64))
            as u32;
        let i: u32 = self.m + q;
        let s: u32 = if i == 0 {
            0
        } else {
            proof {
                assert((self.m as int) * (UNIT as int) <= (i as int) * (UNIT as int))
                    by (nonlinear_arith)
                    requires
                        0 <= self.m as int <= i as int,
                        0 <= UNIT as int,
                ;
                assert((self.m as int) * (UNIT as int) <= (UNIT as int) * (UNIT as int))
                    by (nonlinear_arith)
                    requires
                        0 <= self.m as int <= UNIT as int,
                ;
                lemma_div_round((self.m as int) * (UNIT as int), i as int);
                lemma_div_round_le((self.m as int) * (UNIT as int), i as int, UNIT as int);
            }
            UNIT - (div_round_u64((self.m as u64) * (UNIT as u64), i as u64) as u32)
        };
        ColorHSIA::new_unsafe(self.h, s, i, self.a)
    }

    /// Converts to HSV.
    pub fn to_hsv(&self) -> (result: ColorHSVA)
        ensures
            result.parts() == hsv_of_hub(self.hue(), self.chroma(), self.minv(), self.alpha()),
    {
        proof {
            use_type_invariant(self);
        }
        let v: u32 = self.m + self.c;
        let s: u32 = if v == 0 {
            0
        } else {
            proof {
                assert((self.c as int) * (UNIT as int) <= (v as int) * (UNIT as int))
                    by (nonlinear_arith)
                    requires
                        0 <= self.c as int <= v as int,
                        0 <= UNIT as int,
                ;
                assert((v as int) * (UNIT as int) <= (UNIT as int) * (UNIT as int))
                    by (nonlinear_arith)
                    requires
                        0 <= v as int <= UNIT as int,
                ;
                lemma_div_round_le((self.c as int) * (UNIT as int), v as int, UNIT as int);
                lemma_div_round((self.c as int) * (UNIT as int), v as int);
            }
            div_round_u64((self.c as u64) * (UNIT as u64), v as u64) as u32
        };
        ColorHSVA::new_unsafe(self.h, s, v, self.a)
    }
}

/// Converts a RGB color to HSV representation, through the hub.
pub fn rgb_to_hsv(color: &ColorRGBA) -> (result: ColorHSVA)
    ensures
        result.parts() == ({
            let (h, c, m, al) = hub_of_rgb(color.red(), color.green(), color.blue(), color.alpha());
            hsv_of_hub(h, c, m, al)
        }),
{
    ColorHCMA::from_rgb(color).to_hsv()
}

/// Converts a RGB color to HSL representation, through the hub.
pub fn rgb_to_hsl(color: &ColorRGBA) -> (result: ColorHSLA)
    ensures
        result.parts() == ({
            let (h, c, m, al) = hub_of_rgb(color.red(), color.green(), color.blue(), color.alpha());
            hsl_of_hub(h, c, m, al)
        }),
{
    ColorHCMA::from_rgb(color).to_hsl()
}

/// Converts a RGB color to HSI representation, through the hub.
pub fn rgb_to_hsi(color: &ColorRGBA) -> (result: ColorHSIA)
    ensures
        result.parts() == ({
            let (h, c, m, al) = hub_of_rgb(color.red(), color.green(), color.blue(), color.alpha());
            hsi_of_hub(h, c, m, al)
        }),
{
    ColorHCMA::from_rgb(color).to_hsi()
}

/// Converts a HSV color to HSL representation, through the hub.
pub fn hsv_to_hsl(color: &ColorHSVA) -> (result: ColorHSLA)
    ensures
        result.parts() == ({
            let (h, c, m, al) = hub_of_hsv(color.hue(), color.sat(), color.val(), color.alpha());
            hsl_of_hub(h, c, m, al)
        }),
{
    ColorHCMA::from_hsv(color).to_hsl()
}

/// Converts a HSV color to HSI representation, through the hub.
pub fn hsv_to_hsi(color: &ColorHSVA) -> (result: ColorHSIA)
    ensures
        result.parts() == ({
            let (h, c, m, al) = hub_of_hsv(color.hue(), color.sat(), color.val(), color.alpha());
            hsi_of_hub(h, c, m, al)
        }),
{
    ColorHCMA::from_hsv(color).to_hsi()
}

/// Converts a HSV color to RGB representation, through the hub.
pub fn hsv_to_rgb(color: &ColorHSVA) -> (result: ColorRGBA)
    ensures
        result.parts() == ({
            let (h, c, m, al) = hub_of_hsv(color.hue(), color.sat(), color.val(), color.alpha());
            rgb_of_hub(h, c, m, al)
        }),
{
    ColorHCMA::from_hsv(color).to_rgb()
}

/// Converts a HSL color to HSI representation, through the hub.
pub fn hsl_to_hsi(color: &ColorHSLA) -> (result: ColorHSIA)
    ensures
        result.parts() == ({
            let (h, c, m, al) = hub_of_hsl(color.hue(), color.sat(), color.light(), color.alpha());
            hsi_of_hub(h, c, m, al)
        }),
{
    ColorHCMA::from_hsl(color).to_hsi()
}

/// Converts a HSL color to RGB representation, through the hub.
pub fn hsl_to_rgb(color: &ColorHSLA) -> (result: ColorRGBA)
    ensures
        result.parts() == ({
            let (h, c, m, al) = hub_of_hsl(color.hue(), color.sat(), color.light(), color.alpha());
            rgb_of_hub(h, c, m, al)
        }),
{
    ColorHCMA::from_hsl(color).to_rgb()
}

/// Converts a HSL color to HSV representation, through the hub.
pub fn hsl_to_hsv(color: &ColorHSLA) -> (result: ColorHSVA)
    ensures
        result.parts() == ({
            let (h, c, m, al) = hub_of_hsl(color.hue(), color.sat(), color.light(), color.alpha());
            hsv_of_hub(h, c, m, al)
        }),
{
    ColorHCMA::from_hsl(color).to_hsv()
}

/// Converts a HSI color to RGB representation, through the hub.
pub fn hsi_to_rgb(color: &ColorHSIA) -> (result: ColorRGBA)
    ensures
        result.parts() == ({
            let (h, c, m, al) = hub_of_hsi(color.hue(), color.sat(), color.intens(), color.alpha());
            rgb_of_hub(h, c, m, al)
        }),
{
    ColorHCMA::from_hsi(color).to_rgb()
}

/// Converts a HSI color to HSV representation, through the hub.
pub fn hsi_to_hsv(color: &ColorHSIA) -> (result: ColorHSVA)
    ensures
        result.parts() == ({
            let (h, c, m, al) = hub_of_hsi(color.hue(), color.sat(), color.intens(), color.alpha());
            hsv_of_hub(h, c, m, al)
        }),
{
    ColorHCMA::from_hsi(color).to_hsv()
}

/// Converts a HSI color to HSL representation, through the hub.
pub fn hsi_to_hsl(color: &ColorHSIA) -> (result: ColorHSLA)
    ensures
        result.parts() == ({
            let (h, c, m, al) = hub_of_hsi(color.hue(), color.sat(), color.intens(), color.alpha());
            hsl_of_hub(h, c, m, al)
        }),
{
    ColorHCMA::from_hsi(color).to_hsl()
}


/// A gray RGB color (all three channels equal) encodes to the hub with hue
/// exactly 0 and chroma exactly 0, even though any hue paired with chroma 0
/// would decode to the same gray: the encoder picks this one canonical
/// form.
pub proof fn lemma_gray_hub(g: int, a: int)
    requires
        in_unit(g),
        in_unit(a),
    ensures
        hub_of_rgb(g, g, g, a) == (0int, 0int, g, a),
{
}

/// Achromatic fixed points: black, white and every gray in between convert
/// to saturation exactly 0 in HSV, HSL and HSI.
pub proof fn lemma_achromatic_saturation(g: int, a: int)
    requires
        in_unit(g),
        in_unit(a),
    ensures
        ({
            let (h, c, m, al) = hub_of_rgb(g, g, g, a);
            hsv_of_hub(h, c, m, al).1 == 0
        }),
        ({
            let (h, c, m, al) = hub_of_rgb(g, g, g, a);
            hsl_of_hub(h, c, m, al).1 == 0
        }),
        ({
            let (h, c, m, al) = hub_of_rgb(g, g, g, a);
            hsi_of_hub(h, c, m, al).1 == 0
        }),
{
    lemma_gray_hub(g, a);
    // HSV: v = g; the saturation numerator is zero.
    if g != 0 {
        crate::math::lemma_div_round_zero(g);
    }
    // HSL: l = g + div_round(0, 2) = g; again a zero numerator.
    assert(div_round(0, 2) == 0);
    let l = g;
    let zl = lightz(l);
    if zl != 0 {
        crate::math::lemma_div_round_zero(zl);
    }
    // HSI: i = g + div_round(0, 3 * UNIT) = g, and m * UNIT / i divides
    // back to exactly UNIT.
    crate::math::lemma_div_round_zero(3 * (UNIT as int));
    if g != 0 {
        crate::math::lemma_div_round_exact(UNIT as int, g);
        assert(g * (UNIT as int) == (UNIT as int) * g) by (nonlinear_arith);
    }
}

/// Tie-break determinism for a symmetric input: when the red and green
/// channels are equal and larger than blue, the encoder always lands on
/// the same hue, the exact yellow sector boundary at one sixth of the
/// circle.
pub proof fn lemma_tie_break_hue(r: int, b: int, a: int)
    requires
        0 <= b < r <= UNIT,
        in_unit(a),
    ensures
        hub_of_rgb(r, r, b, a) == ((UNIT as int) / 6, r - b, b, a),
{
    let c = r - b;
    assert(c * (UNIT as int) == ((UNIT as int) / 6) * (6 * c)) by (nonlinear_arith)
        requires
            (UNIT as int) % 6 == 0,
    ;
    vstd::arithmetic::div_mod::lemma_div_by_multiple((UNIT as int) / 6, 6 * c);
}

/// Hue circularity: hue 0 and the largest representable hue just below the
/// wrap decode to RGB triples that differ only in the blue channel, and
/// there only by the one small step `6 c / UNIT` that one hue unit of
/// angle is worth; there is no seam at the wrap point.
pub proof fn lemma_hue_wrap_continuity(c: int, m: int, a: int)
    requires
        0 <= c,
        0 <= m,
        c + m <= UNIT,
        in_unit(a),
    ensures
        ({
            let lo = rgb_of_hub(0, c, m, a);
            let hi = rgb_of_hub(UNIT - 1, c, m, a);
            lo == (c + m, m, m, a) && hi == (c + m, m, m + div_round(6 * c, UNIT as int), a)
                && div_round(6 * c, UNIT as int) <= 6
        }),
{
    let u = UNIT as int;
    vstd::arithmetic::div_mod::lemma_fundamental_div_mod_converse(0, 2 * u, 0, 0);
    vstd::arithmetic::div_mod::lemma_fundamental_div_mod_converse(
        6 * (u - 1),
        2 * u,
        2,
        2 * u - 6,
    );
    crate::math::lemma_div_round_zero(UNIT as int);
    lemma_div_round(6 * c, UNIT as int);
    assert(6 * c <= (UNIT as int) * 6) by (nonlinear_arith)
        requires
            c <= UNIT as int,
    ;
    lemma_div_round_le(6 * c, UNIT as int, 6);
    assert(c * hexz(UNIT - 1) == 6 * c) by (nonlinear_arith)
        requires
            hexz(UNIT - 1) == 6,
    ;
}

/// Round trip of the hub through HSV: decoding a hub color to HSV and
/// encoding it again reproduces the hub color exactly, for every valid hub
/// color.
pub proof fn lemma_hsv_hub_round_trip(h: int, c: int, m: int, a: int)
    requires
        in_hue(h),
        0 <= c,
        0 <= m,
        c + m <= UNIT,
        in_unit(a),
    ensures
        ({
            let (h2, s, v, a2) = hsv_of_hub(h, c, m, a);
            hub_of_hsv(h2, s, v, a2) == (h, c, m, a)
        }),
{
    let u = UNIT as int;
    let v = m + c;
    if v == 0 {
        crate::math::lemma_div_round_zero(u);
    } else {
        let s = div_round(c * u, v);
        lemma_div_round(c * u, v);
        if v == u {
            crate::math::lemma_div_round_exact(c, u);
            assert(c * u == u * c) by (nonlinear_arith);
        }
        assert(2 * u * c <= 2 * (v * s) + u && 2 * (v * s) + u < 2 * u * c + 2 * u)
            by (nonlinear_arith)
            requires
                2 * (c * u) - v < 2 * v * s,
                2 * v * s <= 2 * (c * u) + v,
                0 < v <= u,
                (v == u) ==> s == c,
        ;
        crate::math::lemma_div_round_converse(v * s, u, c);
    }
}

/// Round trip of the hub through HSL: decoding a hub color to HSL and
/// encoding it again reproduces the hub color exactly, except on the one
/// boundary family of odd chroma against the gamut ceiling
/// (`c + m == UNIT` with `c` odd), where the lightness midpoint cannot be
/// represented and the chroma comes back one unit short.
pub proof fn lemma_hsl_hub_round_trip(h: int, c: int, m: int, a: int)
    requires
        in_hue(h),
        0 <= c,
        0 <= m,
        c + m <= UNIT,
        in_unit(a),
        c % 2 == 0 || c + m < UNIT,
    ensures
        ({
            let (h2, s, l, a2) = hsl_of_hub(h, c, m, a);
            hub_of_hsl(h2, s, l, a2) == (h, c, m, a)
        }),
{
    let u = UNIT as int;
    let half = div_round(c, 2);
    lemma_div_round(c, 2);
    let l = m + half;
    let z = lightz(l);
    if c == 0 {
        assert(half == 0);
        if z != 0 {
            crate::math::lemma_div_round_zero(z);
        }
        crate::math::lemma_div_round_zero(u);
    } else {
        // The waveform at the decoded lightness is at least the chroma, so
        // the saturation is not clamped at UNIT.
        assert(2 * l >= c);
        if c + m < u {
            assert(2 * (u - l) > c);
        } else {
            assert(half == (2 * c + 2) / 4int);
            assert(2 * (u - l) == c);
        }
        assert(z >= c && 0 < z <= u);
        let q = div_round(c * u, z);
        lemma_div_round(c * u, z);
        assert(c * u <= z * u) by (nonlinear_arith)
            requires
                c <= z,
                0 <= u,
        ;
        lemma_div_round_le(c * u, z, u);
        if z == u {
            crate::math::lemma_div_round_exact(c, u);
            assert(c * u == u * c) by (nonlinear_arith);
        }
        // Encoding multiplies the saturation back by the waveform, and the
        // rounded product divides back to exactly c.
        assert(2 * u * c <= 2 * (z * q) + u && 2 * (z * q) + u < 2 * u * c + 2 * u)
            by (nonlinear_arith)
            requires
                2 * (c * u) - z < 2 * z * q,
                2 * z * q <= 2 * (c * u) + z,
                0 < z <= u,
                (z == u) ==> q == c,
        ;
        crate::math::lemma_div_round_converse(z * q, u, c);
    }
}


/// Round trip of an RGB color through the hub: encoding to hue, chroma and
/// minimum and decoding back reproduces every channel to within 6 units
/// (the worth of the one hue grid step the encoder's final division can
/// lose), and the alpha exactly. In particular the decoder inverts the
/// encoder's sector logic across all six sectors and at the sector
/// boundaries.
pub proof fn lemma_rgb_hub_round_trip(r: int, g: int, b: int, a: int)
    requires
        in_unit(r),
        in_unit(g),
        in_unit(b),
        in_unit(a),
    ensures
        ({
            let (h, c, m, al) = hub_of_rgb(r, g, b, a);
            let (r2, g2, b2, a2) = rgb_of_hub(h, c, m, al);
            r - 6 <= r2 <= r + 6 && g - 6 <= g2 <= g + 6 && b - 6 <= b2 <= b + 6 && a2 == a
        }),
{
    let u = UNIT as int;
    let imin = rgb_min_index(r, g, b);
    let imax = rgb_max_index(r, g, b);
    let m = sel3(r, g, b, imin);
    let c = sel3(r, g, b, imax) - m;
    lemma_rgb_extremes(r, g, b);
    if c == 0 {
        // Gray: the hub is (0, 0, m) and all three decoded channels are m.
        crate::math::lemma_div_round_zero(u);
    } else {
        let maj = (imin + 1) % 3;
        let minor = ((imax + 3 - imin) % 3) - 1;
        let x0 = sel3(r, g, b, (maj + ((minor + 1) % 2)) % 3) - m;
        let t = if minor == 0 {
            x0
        } else {
            2 * c - x0
        };
        let h = ((2 * maj * c + t) * u) / (6 * c);
        assert(0 <= x0 <= c);
        assert(0 <= t <= 2 * c);

        // The hue splits into an exact sector base and a fractional rest:
        // h = maj * (u / 3) + (t * u) / (6 c).
        let q = (t * u) / (6 * c);
        crate::math::lemma_div_floor(t * u, 6 * c);
        assert(t * u + (maj * (u / 3)) * (6 * c) == (2 * maj * c + t) * u) by (nonlinear_arith)
            requires
                u == UNIT as int,
        ;
        vstd::arithmetic::div_mod::lemma_hoist_over_denominator(
            t * u,
            maj * (u / 3),
            (6 * c) as nat,
        );
        assert(h == maj * (u / 3) + q);
        assert(6 * (maj * (u / 3)) == 2 * maj * u) by (nonlinear_arith)
            requires
                u == UNIT as int,
        ;
        let f = 6 * q;
        let hp6 = 6 * h;
        assert(hp6 == 2 * maj * u + f);

        // Bounds that tie f to the exact fraction t * u / c.
        assert(c * f <= t * u && t * u - 6 * c < c * f) by (nonlinear_arith)
            requires
                t * u - 6 * c < (6 * c) * q <= t * u,
                f == 6 * q,
        ;
        assert(f <= 2 * u && 0 <= f) by (nonlinear_arith)
            requires
                c * f <= t * u,
                t <= 2 * c,
                0 < c,
                0 < u,
                0 <= q,
                f == 6 * q,
        ;

        if f == 2 * u {
            // Only possible when the middle channel equals the minimum:
            // the hue lands exactly on the next sector pair's base.
            assert(t == 2 * c) by (nonlinear_arith)
                requires
                    c * f <= t * u,
                    f == 2 * u,
                    t <= 2 * c,
                    0 < c,
                    0 < u,
            ;
            assert(minor == 1 && x0 == 0);
            assert(maj == 0);
            vstd::arithmetic::div_mod::lemma_fundamental_div_mod_converse(
                hp6,
                2 * u,
                maj + 1,
                0,
            );
            assert(hp6 % (2 * u) == 0);
            assert(hp6 / (2 * u) == 1);
            crate::math::lemma_div_round_zero(u);
            assert(hexz(h) == 0);
            assert(c * hexz(h) == 0) by (nonlinear_arith)
                requires
                    hexz(h) == 0,
            ;
        } else {
            vstd::arithmetic::div_mod::lemma_fundamental_div_mod_converse(
                hp6,
                2 * u,
                maj,
                f,
            );
            assert(hp6 % (2 * u) == f);
            assert(hp6 / (2 * u) == maj);
            let x1 = div_round(c * hexz(h), u);
            if f <= u {
                assert(hexz(h) == f);
                lemma_div_round(c * f, u);
                if minor == 0 {
                    if f == u {
                        // The exact sector midpoint: the middle channel
                        // equals the chroma.
                        assert(x0 == c) by (nonlinear_arith)
                            requires
                                c * f <= x0 * u,
                                f == u,
                                0 < u,
                                x0 <= c,
                        ;
                    }
                    // x1 approximates x0 from below.
                    assert(x0 - 6 <= x1 <= x0) by (nonlinear_arith)
                        requires
                            2 * (c * f) - u < 2 * u * x1 <= 2 * (c * f) + u,
                            c * f <= x0 * u,
                            x0 * u - 6 * c < c * f,
                            0 < c <= u,
                            0 <= x0,
                            0 <= x1,
                    ;
                } else {
                    // The fraction is at the top of the sector: the middle
                    // channel is within 6 of the chroma, and so is x1.
                    assert(c - 6 <= x1 <= c && c - 6 < x0) by (nonlinear_arith)
                        requires
                            2 * (c * f) - u < 2 * u * x1 <= 2 * (c * f) + u,
                            c * f <= (2 * c - x0) * u,
                            (2 * c - x0) * u - 6 * c < c * f,
                            f <= u,
                            0 < c <= u,
                            0 <= x0 <= c,
                            0 <= x1,
                    ;
                }
            } else {
                assert(hexz(h) == 2 * u - f);
                lemma_div_round(c * (2 * u - f), u);
                if minor == 0 {
                    // Only the exact boundary f == u can reach here.
                    assert(false) by (nonlinear_arith)
                        requires
                            c * f <= x0 * u,
                            x0 <= c,
                            u < f,
                            0 < c,
                            0 < u,
                    ;
                } else {
                    // x1 approximates x0 from above.
                    assert(x0 <= x1 <= x0 + 6) by (nonlinear_arith)
                        requires
                            2 * (c * (2 * u - f)) - u < 2 * u * x1 <= 2 * (c * (2 * u - f)) + u,
                            c * f <= (2 * c - x0) * u,
                            (2 * c - x0) * u - 6 * c < c * f,
                            0 < c <= u,
                            0 <= x0 <= c,
                            0 <= x1,
                    ;
                }
            }
        }
    }
}


/// The hub color an RGB color encodes to is valid: the hue is in range and
/// chroma plus minimum stays within the gamut.
pub proof fn lemma_hub_of_rgb_valid(r: int, g: int, b: int, a: int)
    requires
        in_unit(r),
        in_unit(g),
        in_unit(b),
        in_unit(a),
    ensures
        ({
            let (h, c, m, al) = hub_of_rgb(r, g, b, a);
            in_hue(h) && 0 <= c && 0 <= m && c + m <= UNIT && al == a
        }),
{
    let u = UNIT as int;
    lemma_rgb_extremes(r, g, b);
    let imin = rgb_min_index(r, g, b);
    let imax = rgb_max_index(r, g, b);
    let m = sel3(r, g, b, imin);
    let c = sel3(r, g, b, imax) - m;
    if c != 0 {
        let maj = (imin + 1) % 3;
        let minor = ((imax + 3 - imin) % 3) - 1;
        let x0 = sel3(r, g, b, (maj + ((minor + 1) % 2)) % 3) - m;
        let t = if minor == 0 {
            x0
        } else {
            2 * c - x0
        };
        assert(0 <= x0 <= c);
        // In the last sector pair the fraction never reaches the top: the
        // tie-break gives the middle channel a strict lead over the
        // minimum there.
        assert(maj == 2 ==> t < 2 * c);
        let num = (2 * maj * c + t) * u;
        assert(num < 6 * c * u && num >= 0) by (nonlinear_arith)
            requires
                0 < c,
                0 < u,
                0 <= maj <= 2,
                0 <= t <= 2 * c,
                maj == 2 ==> t < 2 * c,
                t <= 2 * c,
                num == (2 * maj * c + t) * u,
        ;
        crate::math::lemma_div_floor_lt(num, 6 * c, u);
        crate::math::lemma_div_floor(num, 6 * c);
    }
}

/// Round trip identity from RGB through HSV and back: the hub color
/// survives the HSV detour exactly, so the result differs from the
/// original by at most the 6-unit hue grid step in each channel; alpha is
/// exact.
pub proof fn lemma_round_trip_rgb_hsv(r: int, g: int, b: int, a: int)
    requires
        in_unit(r),
        in_unit(g),
        in_unit(b),
        in_unit(a),
    ensures
        ({
            let (h1, c1, m1, a1) = hub_of_rgb(r, g, b, a);
            let (h2, s, v, a2) = hsv_of_hub(h1, c1, m1, a1);
            let (h3, c3, m3, a3) = hub_of_hsv(h2, s, v, a2);
            let (r2, g2, b2, a4) = rgb_of_hub(h3, c3, m3, a3);
            r - 6 <= r2 <= r + 6 && g - 6 <= g2 <= g + 6 && b - 6 <= b2 <= b + 6 && a4 == a
        }),
{
    lemma_hub_of_rgb_valid(r, g, b, a);
    let (h1, c1, m1, a1) = hub_of_rgb(r, g, b, a);
    lemma_hsv_hub_round_trip(h1, c1, m1, a1);
    lemma_rgb_hub_round_trip(r, g, b, a);
}

/// Round trip identity from RGB through HSL and back, stated away from the
/// one boundary family the lightness midpoint cannot represent (odd chroma
/// against the gamut ceiling): the hub color survives the HSL detour
/// exactly, so the result differs from the original by at most the 6-unit
/// hue grid step in each channel; alpha is exact.
pub proof fn lemma_round_trip_rgb_hsl(r: int, g: int, b: int, a: int)
    requires
        in_unit(r),
        in_unit(g),
        in_unit(b),
        in_unit(a),
        ({
            let (h1, c1, m1, a1) = hub_of_rgb(r, g, b, a);
            c1 % 2 == 0 || c1 + m1 < UNIT
        }),
    ensures
        ({
            let (h1, c1, m1, a1) = hub_of_rgb(r, g, b, a);
            let (h2, s, l, a2) = hsl_of_hub(h1, c1, m1, a1);
            let (h3, c3, m3, a3) = hub_of_hsl(h2, s, l, a2);
            let (r2, g2, b2, a4) = rgb_of_hub(h3, c3, m3, a3);
            r - 6 <= r2 <= r + 6 && g - 6 <= g2 <= g + 6 && b - 6 <= b2 <= b + 6 && a4 == a
        }),
{
    lemma_hub_of_rgb_valid(r, g, b, a);
    let (h1, c1, m1, a1) = hub_of_rgb(r, g, b, a);
    lemma_hsl_hub_round_trip(h1, c1, m1, a1);
    lemma_rgb_hub_round_trip(r, g, b, a);
}

/// Round trip identity from HSV through HSL and back: hue, value and alpha
/// come back exactly, and the saturation to within half a unit plus half
/// the value's reciprocal on the `[0, 1]` scale (stated multiplied out by
/// `2 v`). The one odd saturation at full value is excluded: there the
/// lightness midpoint cannot be represented.
pub proof fn lemma_round_trip_hsv_hsl(h: int, s: int, v: int, a: int)
    requires
        in_hue(h),
        in_unit(s),
        in_unit(v),
        in_unit(a),
        !(v == UNIT && s % 2 == 1),
    ensures
        ({
            let (h1, c1, m1, a1) = hub_of_hsv(h, s, v, a);
            let (h2, s2, l2, a2) = hsl_of_hub(h1, c1, m1, a1);
            let (h3, c3, m3, a3) = hub_of_hsl(h2, s2, l2, a2);
            let (h4, s4, v4, a4) = hsv_of_hub(h3, c3, m3, a3);
            h4 == h && v4 == v && a4 == a && 2 * v * (s4 - s) <= UNIT + v && 2 * v * (s - s4)
                <= UNIT + v
        }),
{
    let u = UNIT as int;
    let c1 = div_round(v * s, u);
    lemma_div_round(v * s, u);
    assert(v * s <= u * v && v * s <= u * u) by (nonlinear_arith)
        requires
            0 <= v <= u,
            0 <= s <= u,
    ;
    lemma_div_round_le(v * s, u, v);
    if v == u {
        crate::math::lemma_div_round_exact(s, u);
        assert(s * u == v * s) by (nonlinear_arith)
            requires
                v == u,
        ;
    }
    let m1 = v - c1;
    lemma_hsl_hub_round_trip(h, c1, m1, a);
    if v == 0 {
        crate::math::lemma_div_round_zero(u);
    } else {
        let s4 = div_round(c1 * u, v);
        lemma_div_round(c1 * u, v);
        assert(2 * v * (s4 - s) <= u + v && 2 * v * (s - s4) <= u + v) by (nonlinear_arith)
            requires
                2 * (v * s) - u < 2 * u * c1,
                2 * u * c1 <= 2 * (v * s) + u,
                2 * (c1 * u) - v < 2 * v * s4,
                2 * v * s4 <= 2 * (c1 * u) + v,
                0 < v <= u,
        ;
    }
}

/// Round trip identity from HSL through HSV and back: hue, lightness and
/// alpha come back exactly, and the saturation to within half a unit plus
/// half the reciprocal of the lightness waveform on the `[0, 1]` scale
/// (stated multiplied out by `2 z`); at lightness 0 or 1 the saturation
/// collapses to 0 as both decoders' guards say.
pub proof fn lemma_round_trip_hsl_hsv(h: int, s: int, l: int, a: int)
    requires
        in_hue(h),
        in_unit(s),
        in_unit(l),
        in_unit(a),
    ensures
        ({
            let z = lightz(l);
            let (h1, c1, m1, a1) = hub_of_hsl(h, s, l, a);
            let (h2, s2, v2, a2) = hsv_of_hub(h1, c1, m1, a1);
            let (h3, c3, m3, a3) = hub_of_hsv(h2, s2, v2, a2);
            let (h4, s4, l4, a4) = hsl_of_hub(h3, c3, m3, a3);
            h4 == h && l4 == l && a4 == a && 2 * z * (s4 - s) <= UNIT + z && 2 * z * (s - s4)
                <= UNIT + z
        }),
{
    let u = UNIT as int;
    let z = lightz(l);
    let c1 = div_round(z * s, u);
    lemma_div_round(z * s, u);
    assert(z * s <= u * z && z * s <= u * u) by (nonlinear_arith)
        requires
            0 <= z <= u,
            0 <= s <= u,
    ;
    lemma_div_round_le(z * s, u, z);
    lemma_div_round(c1, 2);
    lemma_div_round_monotone(c1, z, 2);
    crate::math::lemma_div_round_exact(l, 2);
    assert(l * 2 == 2 * l) by (nonlinear_arith);
    if 2 * l <= u {
        assert(div_round(z, 2) == l);
    } else {
        assert((u - l) * 2 == z) by (nonlinear_arith)
            requires
                z == 2 * (u - l),
        ;
        crate::math::lemma_div_round_exact(u - l, 2);
        assert(div_round(z, 2) == u - l);
    }
    let half = div_round(c1, 2);
    let m1 = l - half;
    lemma_hsv_hub_round_trip(h, c1, m1, a);
    // Decoding the preserved hub back to HSL gives the lightness back by
    // construction, and the same waveform.
    assert(m1 + div_round(c1, 2) == l);
    if z == 0 {
        crate::math::lemma_div_round_zero(u);
        assert(c1 == 0);
    } else {
        let q = div_round(c1 * u, z);
        lemma_div_round(c1 * u, z);
        assert(c1 * u <= z * u) by (nonlinear_arith)
            requires
                c1 <= z,
                0 <= u,
        ;
        lemma_div_round_le(c1 * u, z, u);
        if z == u {
            crate::math::lemma_div_round_exact(s, u);
            assert(s * u == z * s) by (nonlinear_arith)
                requires
                    z == u,
            ;
        }
        assert(2 * z * (q - s) <= u + z && 2 * z * (s - q) <= u + z) by (nonlinear_arith)
            requires
                2 * (z * s) - u < 2 * u * c1,
                2 * u * c1 <= 2 * (z * s) + u,
                2 * (c1 * u) - z < 2 * z * q,
                2 * z * q <= 2 * (c1 * u) + z,
                0 < z <= u,
        ;
    }
}


/// Re-encoding a decoded hub color: decoding a valid hub color to RGB and
/// encoding the result reproduces chroma, minimum and alpha exactly. The
/// hue comes back to within half a grid unit divided by the chroma plus
/// one step (stated multiplied out by `12 c`, and measured around the hue
/// circle): a small chroma genuinely carries less hue information. A hub
/// color with zero chroma comes back in the canonical gray form, hue 0.
pub proof fn lemma_rgb_hub_reencode(h: int, c: int, m: int, a: int)
    requires
        in_hue(h),
        0 <= c,
        0 <= m,
        c + m <= UNIT,
        in_unit(a),
    ensures
        ({
            let (r, g, b, a1) = rgb_of_hub(h, c, m, a);
            let (h2, c2, m2, a2) = hub_of_rgb(r, g, b, a1);
            a2 == a && (if c == 0 {
                h2 == 0 && c2 == 0 && m2 == m
            } else {
                c2 == c && m2 == m && 12 * c * hue_dist(h2, h) <= UNIT + 12 * c
            })
        }),
{
    let u = UNIT as int;
    let hp6 = 6 * h;
    crate::math::lemma_div_floor(hp6, 2 * u);
    crate::math::lemma_div_floor_lt(hp6, 2 * u, 3);
    vstd::arithmetic::div_mod::lemma_fundamental_div_mod(hp6, 2 * u);
    vstd::arithmetic::div_mod::lemma_mod_division_less_than_divisor(hp6, 2 * u);
    let i2 = hp6 / (2 * u);
    let r2 = hp6 % (2 * u);
    let z = hexz(h);
    if c == 0 {
        assert(c * z == 0) by (nonlinear_arith)
            requires
                c == 0,
        ;
        crate::math::lemma_div_round_zero(u);
        lemma_gray_hub(m, a);
    } else {
        lemma_div_round(c * z, u);
        assert(c * z <= u * c) by (nonlinear_arith)
            requires
                0 <= c,
                0 <= z <= u,
        ;
        lemma_div_round_le(c * z, u, c);
        let x = div_round(c * z, u);
        assert(0 <= x <= c);
        let (r, g, b, a1) = rgb_of_hub(h, c, m, a);
        lemma_rgb_extremes(r, g, b);
        let imin = rgb_min_index(r, g, b);
        let imax = rgb_max_index(r, g, b);
        let m2 = sel3(r, g, b, imin);
        let c2 = sel3(r, g, b, imax) - m2;
        assert(m2 == m && c2 == c);
        let maj2 = (imin + 1) % 3;
        let minor2 = ((imax + 3 - imin) % 3) - 1;
        let x02 = sel3(r, g, b, (maj2 + ((minor2 + 1) % 2)) % 3) - m2;
        let t2 = if minor2 == 0 {
            x02
        } else {
            2 * c - x02
        };
        assert(0 <= x02 <= c);
        assert(0 <= maj2 <= 2 && 0 <= t2 <= 2 * c);
        lemma_rgb_hue_decomposition(maj2, t2, c);
        let h2 = hub_of_rgb(r, g, b, a1).0;
        let f2 = 6 * ((t2 * u) / (6 * c));
        assert(6 * h2 == 2 * maj2 * u + f2);
        let dd = hue_dist(h2, h);
        let ad = if h2 >= h {
            h2 - h
        } else {
            h - h2
        };
        assert(0 <= dd && dd <= ad && dd <= u - ad);
        assert(ad == h2 - h || ad == h - h2);
        if r2 < u {
            // Even half of the sector pair: the waveform is the rest
            // itself and the chroma slot leads.
            assert(z == r2);
            assert((maj2 == i2 && t2 == x) || (x == 0 && i2 == 1 && maj2 == 0 && t2 == 2 * c));
            if maj2 == i2 && t2 == x {
                assert(12 * c * dd <= u + 12 * c) by (nonlinear_arith)
                    requires
                        c * f2 <= t2 * u,
                        t2 * u < c * f2 + 6 * c,
                        2 * (c * z) - u < 2 * u * x,
                        2 * u * x <= 2 * (c * z) + u,
                        z == r2,
                        t2 == x,
                        maj2 == i2,
                        6 * h2 == 2 * maj2 * u + f2,
                        6 * h == 2 * u * i2 + r2,
                        0 < c,
                        0 < u,
                        0 <= dd,
                        dd <= ad,
                        ad == h2 - h || ad == h - h2,
                ;
            } else {
                // The middle channel fell to the minimum: the tree reads
                // the triple as sitting at the top of the previous pair,
                // a waveform-width below the true hue.
                let d6 = 6 * h - 6 * h2;
                assert(d6 == 2 * u + z - f2);
                assert(c * d6 == 2 * (c * u) + c * z - c * f2) by (nonlinear_arith)
                    requires
                        d6 == 2 * u + z - f2,
                ;
                assert(0 <= c * d6 && 2 * (c * d6) <= 2 * (c * z) + 12 * c && 2 * (c * z) < u)
                    by (nonlinear_arith)
                    requires
                        c * d6 == 2 * (c * u) + c * z - c * f2,
                        c * f2 <= t2 * u,
                        t2 * u < c * f2 + 6 * c,
                        t2 == 2 * c,
                        2 * (c * z) - u < 2 * u * x,
                        x == 0,
                        0 <= z,
                        0 < c,
                        0 < u,
                ;
                assert(0 <= d6) by (nonlinear_arith)
                    requires
                        0 <= c * d6,
                        0 < c,
                ;
                assert(ad == h - h2 && 6 * ad == d6);
                assert(12 * c * dd <= u + 12 * c) by (nonlinear_arith)
                    requires
                        0 <= dd,
                        dd <= ad,
                        6 * ad == d6,
                        2 * (c * d6) <= 2 * (c * z) + 12 * c,
                        2 * (c * z) < u,
                        0 < c,
                ;
            }
        } else {
            // Odd half of the sector pair: the waveform falls and the
            // secondary slot leads.
            assert(z == 2 * u - r2);
            assert((maj2 == i2 && t2 == 2 * c - x) || (x == 0 && i2 == 1 && maj2 == 2 && t2 == 0)
                || (x == 0 && i2 == 2 && maj2 == 0 && t2 == 0));
            if maj2 == i2 && t2 == 2 * c - x {
                assert(12 * c * dd <= u + 12 * c) by (nonlinear_arith)
                    requires
                        c * f2 <= t2 * u,
                        t2 * u < c * f2 + 6 * c,
                        2 * (c * z) - u < 2 * u * x,
                        2 * u * x <= 2 * (c * z) + u,
                        z == 2 * u - r2,
                        t2 == 2 * c - x,
                        maj2 == i2,
                        6 * h2 == 2 * maj2 * u + f2,
                        6 * h == 2 * u * i2 + r2,
                        0 < c,
                        0 < u,
                        0 <= dd,
                        dd <= ad,
                        ad == h2 - h || ad == h - h2,
                ;
            } else if x == 0 && i2 == 1 && maj2 == 2 && t2 == 0 {
                // The secondary slot fell to the minimum just below the
                // next pair's base: the tree reads the triple as sitting
                // at that base, a waveform-width above the true hue.
                assert(f2 == 0) by (nonlinear_arith)
                    requires
                        c * f2 <= t2 * u,
                        t2 == 0,
                        0 <= f2,
                        0 < c,
                ;
                assert(6 * h2 == 4 * u && 6 * h == 4 * u - z);
                assert(ad == h2 - h && 6 * ad == z);
                assert(2 * (c * z) < u) by (nonlinear_arith)
                    requires
                        2 * (c * z) - u < 2 * u * x,
                        x == 0,
                ;
                assert(12 * c * dd <= u + 12 * c) by (nonlinear_arith)
                    requires
                        0 <= dd,
                        dd <= ad,
                        6 * ad == z,
                        2 * (c * z) < u,
                        0 < c,
                ;
            } else {
                // The top of the circle: the hue wraps and the tree reads
                // the triple as pure-red territory, hue 0. The distance
                // around the circle stays small.
                assert(12 * c * dd <= u + 12 * c) by (nonlinear_arith)
                    requires
                        c * f2 <= t2 * u,
                        0 <= f2,
                        2 * (c * z) - u < 2 * u * x,
                        x == 0,
                        z == 2 * u - r2,
                        t2 == 0,
                        maj2 == 0,
                        i2 == 2,
                        6 * h2 == 2 * maj2 * u + f2,
                        6 * h == 2 * u * i2 + r2,
                        h < u,
                        0 < c,
                        0 < u,
                        0 <= dd,
                        dd <= ad,
                        dd <= u - ad,
                        ad == h2 - h || ad == h - h2,
                ;
            }
        }
    }
}


/// Round trip identity from HSV through RGB and back: value and alpha come
/// back exactly, the saturation to within half a unit plus half the
/// value's reciprocal (stated multiplied out by `2 v`), and the hue to
/// within the chroma-scaled hue bound of the RGB encoder whenever the
/// color is chromatic. An achromatic color comes back with the canonical
/// hue 0: a gray RGB triple carries no hue to recover.
pub proof fn lemma_round_trip_hsv_rgb(h: int, s: int, v: int, a: int)
    requires
        in_hue(h),
        in_unit(s),
        in_unit(v),
        in_unit(a),
    ensures
        ({
            let (h1, c1, m1, a1) = hub_of_hsv(h, s, v, a);
            let (r, g, b, a2) = rgb_of_hub(h1, c1, m1, a1);
            let (h3, c3, m3, a3) = hub_of_rgb(r, g, b, a2);
            let (h4, s4, v4, a4) = hsv_of_hub(h3, c3, m3, a3);
            v4 == v && a4 == a && 2 * v * (s4 - s) <= UNIT + v && 2 * v * (s - s4) <= UNIT + v
                && (if c1 == 0 {
                h4 == 0
            } else {
                12 * c1 * hue_dist(h4, h) <= UNIT + 12 * c1
            })
        }),
{
    let u = UNIT as int;
    let c1 = div_round(v * s, u);
    lemma_div_round(v * s, u);
    assert(v * s <= u * v && v * s <= u * u) by (nonlinear_arith)
        requires
            0 <= v <= u,
            0 <= s <= u,
    ;
    lemma_div_round_le(v * s, u, v);
    let m1 = v - c1;
    lemma_rgb_hub_reencode(h, c1, m1, a);
    let (rr, gg, bb, aa2) = rgb_of_hub(h, c1, m1, a);
    let (h3, c3, m3, a3) = hub_of_rgb(rr, gg, bb, aa2);
    if v == 0 {
        assert(v * s == 0) by (nonlinear_arith)
            requires
                v == 0,
        ;
        crate::math::lemma_div_round_zero(u);
        assert(c3 * u == 0 && 2 * v * (0 - s) == 0 && 2 * v * (s - 0) == 0) by (nonlinear_arith)
            requires
                c3 == 0,
                v == 0,
        ;
    } else {
        if c1 == 0 {
            assert(c3 * u == 0) by (nonlinear_arith)
                requires
                    c3 == 0,
            ;
            crate::math::lemma_div_round_zero(v);
            assert(2 * v * (s - 0) <= u + v && 2 * v * (0 - s) <= u + v) by (nonlinear_arith)
                requires
                    2 * u * c1 > 2 * (v * s) - u,
                    c1 == 0,
                    0 < v <= u,
                    0 <= s,
            ;
        } else {
            if v == u {
                crate::math::lemma_div_round_exact(s, u);
                assert(s * u == v * s) by (nonlinear_arith)
                    requires
                        v == u,
                ;
            }
            let s4 = div_round(c1 * u, v);
            lemma_div_round(c1 * u, v);
            assert(2 * v * (s4 - s) <= u + v && 2 * v * (s - s4) <= u + v) by (nonlinear_arith)
                requires
                    2 * (v * s) - u < 2 * u * c1,
                    2 * u * c1 <= 2 * (v * s) + u,
                    2 * (c1 * u) - v < 2 * v * s4,
                    2 * v * s4 <= 2 * (c1 * u) + v,
                    0 < v <= u,
            ;
        }
    }
}

/// Round trip identity from HSL through RGB and back: lightness and alpha
/// come back exactly, the saturation to within half a unit plus half the
/// reciprocal of the lightness waveform (stated multiplied out by `2 z`),
/// and the hue to within the chroma-scaled hue bound of the RGB encoder
/// whenever the color is chromatic. An achromatic color comes back with
/// the canonical hue 0.
pub proof fn lemma_round_trip_hsl_rgb(h: int, s: int, l: int, a: int)
    requires
        in_hue(h),
        in_unit(s),
        in_unit(l),
        in_unit(a),
    ensures
        ({
            let z = lightz(l);
            let (h1, c1, m1, a1) = hub_of_hsl(h, s, l, a);
            let (r, g, b, a2) = rgb_of_hub(h1, c1, m1, a1);
            let (h3, c3, m3, a3) = hub_of_rgb(r, g, b, a2);
            let (h4, s4, l4, a4) = hsl_of_hub(h3, c3, m3, a3);
            l4 == l && a4 == a && 2 * z * (s4 - s) <= UNIT + z && 2 * z * (s - s4) <= UNIT + z
                && (if c1 == 0 {
                h4 == 0
            } else {
                12 * c1 * hue_dist(h4, h) <= UNIT + 12 * c1
            })
        }),
{
    let u = UNIT as int;
    let z = lightz(l);
    let c1 = div_round(z * s, u);
    lemma_div_round(z * s, u);
    assert(z * s <= u * z && z * s <= u * u) by (nonlinear_arith)
        requires
            0 <= z <= u,
            0 <= s <= u,
    ;
    lemma_div_round_le(z * s, u, z);
    lemma_div_round(c1, 2);
    lemma_div_round_monotone(c1, z, 2);
    crate::math::lemma_div_round_exact(l, 2);
    assert(l * 2 == 2 * l) by (nonlinear_arith);
    if 2 * l <= u {
        assert(div_round(z, 2) == l);
    } else {
        assert((u - l) * 2 == z) by (nonlinear_arith)
            requires
                z == 2 * (u - l),
        ;
        crate::math::lemma_div_round_exact(u - l, 2);
        assert(div_round(z, 2) == u - l);
    }
    let half = div_round(c1, 2);
    let m1 = l - half;
    lemma_rgb_hub_reencode(h, c1, m1, a);
    assert(m1 + div_round(c1, 2) == l);
    let (rr, gg, bb, aa2) = rgb_of_hub(h, c1, m1, a);
    let (h3, c3, m3, a3) = hub_of_rgb(rr, gg, bb, aa2);
    if z == 0 {
        assert(z * s == 0) by (nonlinear_arith)
            requires
                z == 0,
        ;
        crate::math::lemma_div_round_zero(u);
        assert(c1 == 0);
        assert(c3 * u == 0 && 2 * z * (0 - s) == 0 && 2 * z * (s - 0) == 0) by (nonlinear_arith)
            requires
                c3 == 0,
                z == 0,
        ;
    } else {
        if c1 == 0 {
            assert(c3 * u == 0) by (nonlinear_arith)
                requires
                    c3 == 0,
            ;
            crate::math::lemma_div_round_zero(z);
            assert(2 * z * (s - 0) <= u + z && 2 * z * (0 - s) <= u + z) by (nonlinear_arith)
                requires
                    2 * u * c1 > 2 * (z * s) - u,
                    c1 == 0,
                    0 < z <= u,
                    0 <= s,
            ;
        } else {
            if z == u {
                crate::math::lemma_div_round_exact(s, u);
                assert(s * u == z * s) by (nonlinear_arith)
                    requires
                        z == u,
                ;
            }
            let q = div_round(c1 * u, z);
            lemma_div_round(c1 * u, z);
            assert(c1 * u <= z * u) by (nonlinear_arith)
                requires
                    c1 <= z,
                    0 <= u,
            ;
            lemma_div_round_le(c1 * u, z, u);
            assert(2 * z * (q - s) <= u + z && 2 * z * (s - q) <= u + z) by (nonlinear_arith)
                requires
                    2 * (z * s) - u < 2 * u * c1,
                    2 * u * c1 <= 2 * (z * s) + u,
                    2 * (c1 * u) - z < 2 * z * q,
                    2 * z * q <= 2 * (c1 * u) + z,
                    0 < z <= u,
            ;
        }
    }
}


/// Round trip of the hub through HSI: decoding a hub color to HSI and
/// encoding it again reproduces hue, minimum and alpha exactly and the
/// chroma to within 3 units (two rounded divisions and the waveform
/// denominator each cost at most half a step at the intensity scale).
pub proof fn lemma_hsi_hub_round_trip(h: int, c: int, m: int, a: int)
    requires
        in_hue(h),
        0 <= c,
        0 <= m,
        c + m <= UNIT,
        in_unit(a),
    ensures
        ({
            let (h2, s, i, a2) = hsi_of_hub(h, c, m, a);
            let (h3, c3, m3, a3) = hub_of_hsi(h2, s, i, a2);
            h3 == h && a3 == a && m3 == m && c - 3 <= c3 <= c + 3 && 0 <= c3 && c3 + m3 <= UNIT
        }),
{
    let u = UNIT as int;
    let z = hexz(h);
    assert(0 <= z <= u);
    let q = div_round(c * (u + z), 3 * u);
    lemma_div_round(c * (u + z), 3 * u);
    assert(c * (u + z) <= (3 * u) * c) by (nonlinear_arith)
        requires
            0 <= c,
            0 <= z <= u,
            0 < u,
    ;
    lemma_div_round_le(c * (u + z), 3 * u, c);
    let i = m + q;
    assert(0 <= i <= u);
    if i == 0 {
        // Pure black: everything is zero except a chroma of at most 1,
        // which the re-encoded zero matches within the bound.
        assert(m == 0 && q == 0);
        assert(2 * (c * (u + z)) + 3 * u <= 2 * ((3 * u) * q) + 2 * (3 * u));
        assert(c <= 1) by (nonlinear_arith)
            requires
                2 * (c * (u + z)) < 3 * u,
                0 <= z,
                0 < u,
                0 <= c,
        ;
        crate::math::lemma_div_round_zero(u);
        crate::math::lemma_div_round_zero(u + z);
        assert(0 * (u - 0) == 0 && 3 * 0 * 0 == 0) by (nonlinear_arith);
    } else {
        let w = div_round(m * u, i);
        lemma_div_round(m * u, i);
        assert(m * u <= i * u) by (nonlinear_arith)
            requires
                m <= i,
                0 <= u,
        ;
        lemma_div_round_le(m * u, i, u);
        let s = u - w;
        // The minimum channel comes back exactly.
        if i == u {
            crate::math::lemma_div_round_exact(m, u);
            assert(m * u == u * m) by (nonlinear_arith);
        }
        assert(u - s == w);
        assert(2 * u * m <= 2 * (i * w) + u && 2 * (i * w) + u < 2 * u * m + 2 * u)
            by (nonlinear_arith)
            requires
                2 * (m * u) - i < 2 * i * w,
                2 * i * w <= 2 * (m * u) + i,
                0 < i <= u,
                (i == u) ==> w == m,
        ;
        crate::math::lemma_div_round_converse(i * w, u, m);
        assert(div_round(i * (u - s), u) == m) by {
            assert(i * (u - s) == i * w) by (nonlinear_arith)
                requires
                    u - s == w,
            ;
        };
        // The chroma comes back to within three units.
        let craw = div_round(3 * i * s, u + z);
        lemma_div_round(3 * i * s, u + z);
        assert(2 * (3 * i * s) == 6 * (i * u) - 6 * (i * w)) by (nonlinear_arith)
            requires
                s == u - w,
        ;
        assert(-3 * i <= 6 * (i * w) - 6 * (m * u) && 6 * (i * w) - 6 * (m * u) <= 3 * i)
            by (nonlinear_arith)
            requires
                2 * (m * u) - i < 2 * i * w,
                2 * i * w <= 2 * (m * u) + i,
        ;
        assert(6 * (i * u) == 6 * (m * u) + 6 * (q * u)) by (nonlinear_arith)
            requires
                i == m + q,
        ;
        assert(2 * (c * (u + z)) - 3 * u < 6 * (q * u) && 6 * (q * u) <= 2 * (c * (u + z)) + 3
            * u) by (nonlinear_arith)
            requires
                2 * (c * (u + z)) - 3 * u < 2 * (3 * u) * q,
                2 * (3 * u) * q <= 2 * (c * (u + z)) + 3 * u,
        ;
        assert(2 * (c * (u + z)) - 3 * u - 3 * i - (u + z) < 2 * (u + z) * craw && 2 * (u + z)
            * craw <= 2 * (c * (u + z)) + 3 * u + 3 * i + (u + z));
        assert(c - 3 <= craw <= c + 3) by (nonlinear_arith)
            requires
                2 * (c * (u + z)) - 3 * u - 3 * i - (u + z) < 2 * (u + z) * craw,
                2 * (u + z) * craw <= 2 * (c * (u + z)) + 3 * u + 3 * i + (u + z),
                0 < i <= u,
                0 <= z <= u,
                0 < u,
                0 <= c,
                0 <= craw,
        ;
        // The gamut cap can only move the chroma between c and craw.
        assert(c <= u - m);
    }
}


/// Round trip identity from HSV through HSI and back: hue and alpha come
/// back exactly, the value to within the 3-unit chroma drift of the HSI
/// detour, and the saturation to within six and a half units plus half the
/// returned value's reciprocal (stated multiplied out by `2 v`).
pub proof fn lemma_round_trip_hsv_hsi(h: int, s: int, v: int, a: int)
    requires
        in_hue(h),
        in_unit(s),
        in_unit(v),
        in_unit(a),
    ensures
        ({
            let (h1, c1, m1, a1) = hub_of_hsv(h, s, v, a);
            let (h2, s2, i2, a2) = hsi_of_hub(h1, c1, m1, a1);
            let (h3, c3, m3, a3) = hub_of_hsi(h2, s2, i2, a2);
            let (h4, s4, v4, a4) = hsv_of_hub(h3, c3, m3, a3);
            h4 == h && a4 == a && v - 3 <= v4 <= v + 3 && 2 * v4 * (s4 - s) <= 13 * UNIT + v4
                && 2 * v4 * (s - s4) <= 13 * UNIT + v4
        }),
{
    let u = UNIT as int;
    let c1 = div_round(v * s, u);
    lemma_div_round(v * s, u);
    assert(v * s <= u * v && v * s <= u * u) by (nonlinear_arith)
        requires
            0 <= v <= u,
            0 <= s <= u,
    ;
    lemma_div_round_le(v * s, u, v);
    let m1 = v - c1;
    lemma_hsi_hub_round_trip(h, c1, m1, a);
    let (h2x, s2x, i2x, a2x) = hsi_of_hub(h, c1, m1, a);
    let (h3x, c3, m3, a3x) = hub_of_hsi(h2x, s2x, i2x, a2x);
    let v4 = m3 + c3;
    assert(m3 == m1 && c1 - 3 <= c3 <= c1 + 3);
    if v4 == 0 {
        assert(2 * v4 * (0 - s) == 0 && 2 * v4 * (s - 0) == 0) by (nonlinear_arith)
            requires
                v4 == 0,
        ;
    } else {
        let s4 = div_round(c3 * u, v4);
        lemma_div_round(c3 * u, v4);
        assert(c3 * u <= v4 * u) by (nonlinear_arith)
            requires
                c3 <= v4,
                0 <= u,
        ;
        lemma_div_round_le(c3 * u, v4, u);
        assert(2 * u * c1 == 2 * (c1 * u)) by (nonlinear_arith);
        assert(-6 * u <= 2 * (c3 * u) - 2 * (c1 * u) && 2 * (c3 * u) - 2 * (c1 * u) <= 6 * u)
            by (nonlinear_arith)
            requires
                c1 - 3 <= c3 <= c1 + 3,
                0 < u,
        ;
        assert(-6 * u <= 2 * (v * s) - 2 * (v4 * s) && 2 * (v * s) - 2 * (v4 * s) <= 6 * u)
            by (nonlinear_arith)
            requires
                v4 == v - c1 + c3,
                c1 - 3 <= c3 <= c1 + 3,
                0 <= s <= u,
        ;
        assert(2 * v4 * s4 == 2 * (v4 * s4) && 2 * v4 * s == 2 * (v4 * s) && 2 * v4 * (s4 - s)
            == 2 * (v4 * s4) - 2 * (v4 * s) && 2 * v4 * (s - s4) == 2 * (v4 * s) - 2 * (
        v4 * s4)) by (nonlinear_arith);
        assert(2 * v4 * (s4 - s) <= 13 * u + v4 && 2 * v4 * (s - s4) <= 13 * u + v4);
    }
}

/// Round trip identity from HSL through HSI and back: hue and alpha come
/// back exactly, the lightness to within 2 units, and the saturation to
/// within seven and a half units plus half the reciprocal of the returned
/// lightness waveform (stated multiplied out by `2 z4`).
pub proof fn lemma_round_trip_hsl_hsi(h: int, s: int, l: int, a: int)
    requires
        in_hue(h),
        in_unit(s),
        in_unit(l),
        in_unit(a),
    ensures
        ({
            let (h1, c1, m1, a1) = hub_of_hsl(h, s, l, a);
            let (h2, s2, i2, a2) = hsi_of_hub(h1, c1, m1, a1);
            let (h3, c3, m3, a3) = hub_of_hsi(h2, s2, i2, a2);
            let (h4, s4, l4, a4) = hsl_of_hub(h3, c3, m3, a3);
            let z4 = lightz(l4);
            h4 == h && a4 == a && l - 2 <= l4 <= l + 2 && 2 * z4 * (s4 - s) <= 15 * UNIT + z4
                && 2 * z4 * (s - s4) <= 15 * UNIT + z4
        }),
{
    let u = UNIT as int;
    let z = lightz(l);
    let c1 = div_round(z * s, u);
    lemma_div_round(z * s, u);
    assert(z * s <= u * z && z * s <= u * u) by (nonlinear_arith)
        requires
            0 <= z <= u,
            0 <= s <= u,
    ;
    lemma_div_round_le(z * s, u, z);
    lemma_div_round(c1, 2);
    lemma_div_round_monotone(c1, z, 2);
    crate::math::lemma_div_round_exact(l, 2);
    assert(l * 2 == 2 * l) by (nonlinear_arith);
    if 2 * l <= u {
        assert(div_round(z, 2) == l);
    } else {
        assert((u - l) * 2 == z) by (nonlinear_arith)
            requires
                z == 2 * (u - l),
        ;
        crate::math::lemma_div_round_exact(u - l, 2);
        assert(div_round(z, 2) == u - l);
    }
    let half = div_round(c1, 2);
    let m1 = l - half;
    lemma_hsi_hub_round_trip(h, c1, m1, a);
    let (h2x, s2x, i2x, a2x) = hsi_of_hub(h, c1, m1, a);
    let (h3x, c3, m3, a3x) = hub_of_hsi(h2x, s2x, i2x, a2x);
    assert(m3 == m1 && c1 - 3 <= c3 <= c1 + 3);
    let half4 = div_round(c3, 2);
    lemma_div_round(c3, 2);
    let l4 = m1 + half4;
    assert(l - 2 <= l4 <= l + 2);
    let z4 = lightz(l4);
    assert(0 <= z4 <= u);
    // The new waveform is within 4 units of the old one.
    assert(z - 4 <= z4 <= z + 4);
    if z4 == 0 {
        assert(2 * z4 * (0 - s) == 0 && 2 * z4 * (s - 0) == 0) by (nonlinear_arith)
            requires
                z4 == 0,
        ;
    } else {
        let q4 = div_round(c3 * u, z4);
        lemma_div_round(c3 * u, z4);
        let s4 = if q4 > u {
            u
        } else {
            q4
        };
        assert(s4 <= q4 && s4 <= u && (s4 == q4 || s4 == u));
        assert(2 * z4 * (q4 - s) <= 15 * u + z4 && 2 * z4 * (s - q4) <= 15 * u + z4)
            by (nonlinear_arith)
            requires
                2 * (c3 * u) - z4 < 2 * z4 * q4,
                2 * z4 * q4 <= 2 * (c3 * u) + z4,
                2 * (z * s) - u < 2 * u * c1,
                2 * u * c1 <= 2 * (z * s) + u,
                c1 - 3 <= c3 <= c1 + 3,
                z - 4 <= z4 <= z + 4,
                0 < z4 <= u,
                0 <= z <= u,
                0 <= s <= u,
                0 < u,
        ;
        assert(2 * z4 * (s4 - s) <= 15 * u + z4 && 2 * z4 * (s - s4) <= 15 * u + z4)
            by (nonlinear_arith)
            requires
                2 * z4 * (q4 - s) <= 15 * u + z4,
                2 * z4 * (s - q4) <= 15 * u + z4,
                s4 <= q4,
                s <= u,
                s4 == q4 || s4 == u,
                0 < z4,
        ;
    }
}


/// An HSI color is within the gamut: the chroma its encoder derives fits
/// under the ceiling that its minimum channel leaves, so no capping
/// occurs. Exactly the HSI triples with an in-range RGB counterpart
/// satisfy this.
pub open spec fn hsi_in_gamut(h: int, s: int, i: int) -> bool {
    let m1 = div_round(i * (UNIT - s), UNIT as int);
    div_round(3 * i * s, UNIT + hexz(h)) + m1 <= UNIT
}

/// Decoding the hub color an in-gamut HSI color encodes to reproduces the
/// intensity to within 1 unit and the saturation to within one and a half
/// units plus half the returned intensity's reciprocal (stated multiplied
/// out by `2 i4`); hue and alpha pass through exactly.
pub proof fn lemma_hsi_decode_encode(h: int, s: int, i: int, a: int)
    requires
        in_hue(h),
        in_unit(s),
        in_unit(i),
        in_unit(a),
        hsi_in_gamut(h, s, i),
    ensures
        ({
            let (h1, c1, m1, a1) = hub_of_hsi(h, s, i, a);
            let (h4, s4, i4, a4) = hsi_of_hub(h1, c1, m1, a1);
            h4 == h && a4 == a && i - 1 <= i4 <= i + 1 && 2 * i4 * (s4 - s) <= 3 * UNIT + i4
                && 2 * i4 * (s - s4) <= 3 * UNIT + i4
        }),
{
    let u = UNIT as int;
    let z = hexz(h);
    assert(0 <= z <= u);
    let m1 = div_round(i * (u - s), u);
    lemma_div_round(i * (u - s), u);
    assert(i * (u - s) <= u * i && i * (u - s) <= u * u) by (nonlinear_arith)
        requires
            0 <= i <= u,
            0 <= s <= u,
    ;
    lemma_div_round_le(i * (u - s), u, i);
    let c1 = div_round(3 * i * s, u + z);
    lemma_div_round(3 * i * s, u + z);
    let q4 = div_round(c1 * (u + z), 3 * u);
    lemma_div_round(c1 * (u + z), 3 * u);
    assert(c1 * (u + z) <= (3 * u) * c1) by (nonlinear_arith)
        requires
            0 <= c1,
            0 <= z <= u,
            0 < u,
    ;
    lemma_div_round_le(c1 * (u + z), 3 * u, c1);
    let i4 = m1 + q4;
    // The intensity comes back to within one unit.
    assert(c1 * (u + z) == (u + z) * c1) by (nonlinear_arith);
    assert(i - 1 <= i4 <= i + 1) by (nonlinear_arith)
        requires
            2 * (3 * i * s) - (u + z) < 2 * (u + z) * c1,
            2 * (u + z) * c1 <= 2 * (3 * i * s) + (u + z),
            2 * (c1 * (u + z)) - 3 * u < 2 * (3 * u) * q4,
            2 * (3 * u) * q4 <= 2 * (c1 * (u + z)) + 3 * u,
            2 * (i * (u - s)) - u < 2 * u * m1,
            2 * u * m1 <= 2 * (i * (u - s)) + u,
            c1 * (u + z) == (u + z) * c1,
            i4 == m1 + q4,
            0 <= z <= u,
            0 < u,
            0 <= s <= u,
            0 <= i <= u,
    ;
    if i4 == 0 {
        assert(2 * i4 * (0 - s) == 0 && 2 * i4 * (s - 0) == 0) by (nonlinear_arith)
            requires
                i4 == 0,
        ;
    } else {
        let w4 = div_round(m1 * u, i4);
        lemma_div_round(m1 * u, i4);
        assert(m1 * u <= i4 * u) by (nonlinear_arith)
            requires
                m1 <= i4,
                0 <= u,
        ;
        lemma_div_round_le(m1 * u, i4, u);
        let s4 = u - w4;
        assert(2 * u * m1 == 2 * (m1 * u)) by (nonlinear_arith);
        assert(-2 * u <= 2 * (i * (u - s)) - 2 * (i4 * (u - s)) && 2 * (i * (u - s)) - 2 * (i4 * (
        u - s)) <= 2 * u) by (nonlinear_arith)
            requires
                i - 1 <= i4 <= i + 1,
                0 <= s <= u,
        ;
        assert(2 * i4 * w4 == 2 * (i4 * w4) && 2 * (i4 * (u - s)) - 2 * (i4 * w4) == 2 * i4 * (
        w4 - u + s) * -1 && 2 * i4 * (s4 - s) == 2 * (i4 * w4) * -1 + 2 * (i4 * (u - s)) && 2
            * i4 * (s - s4) == 2 * (i4 * w4) - 2 * (i4 * (u - s))) by (nonlinear_arith)
            requires
                s4 == u - w4,
        ;
        assert(2 * i4 * (s4 - s) <= 3 * u + i4 && 2 * i4 * (s - s4) <= 3 * u + i4);
    }
}

/// Round trip identity from HSI through HSV and back, for in-gamut HSI
/// colors: the hub survives the HSV detour exactly, so the result is the
/// plain decode of the encoded hub: hue and alpha exact, intensity within
/// 1 unit, saturation within the intensity-scaled bound.
pub proof fn lemma_round_trip_hsi_hsv(h: int, s: int, i: int, a: int)
    requires
        in_hue(h),
        in_unit(s),
        in_unit(i),
        in_unit(a),
        hsi_in_gamut(h, s, i),
    ensures
        ({
            let (h1, c1, m1, a1) = hub_of_hsi(h, s, i, a);
            let (h2, s2, v2, a2) = hsv_of_hub(h1, c1, m1, a1);
            let (h3, c3, m3, a3) = hub_of_hsv(h2, s2, v2, a2);
            let (h4, s4, i4, a4) = hsi_of_hub(h3, c3, m3, a3);
            h4 == h && a4 == a && i - 1 <= i4 <= i + 1 && 2 * i4 * (s4 - s) <= 3 * UNIT + i4
                && 2 * i4 * (s - s4) <= 3 * UNIT + i4
        }),
{
    let u = UNIT as int;
    let m1 = div_round(i * (u - s), u);
    lemma_div_round(i * (u - s), u);
    assert(i * (u - s) <= u * i) by (nonlinear_arith)
        requires
            0 <= i,
            0 <= u - s <= u,
    ;
    lemma_div_round_le(i * (u - s), u, i);
    let c1 = div_round(3 * i * s, u + hexz(h));
    lemma_div_round(3 * i * s, u + hexz(h));
    lemma_hsv_hub_round_trip(h, c1, m1, a);
    lemma_hsi_decode_encode(h, s, i, a);
}

/// Round trip identity from HSI through HSL and back, for in-gamut HSI
/// colors away from the HSL boundary family (odd chroma against the gamut
/// ceiling): the hub survives the HSL detour exactly, so the result is
/// the plain decode of the encoded hub: hue and alpha exact, intensity
/// within 1 unit, saturation within the intensity-scaled bound.
pub proof fn lemma_round_trip_hsi_hsl(h: int, s: int, i: int, a: int)
    requires
        in_hue(h),
        in_unit(s),
        in_unit(i),
        in_unit(a),
        hsi_in_gamut(h, s, i),
        ({
            let (h1, c1, m1, a1) = hub_of_hsi(h, s, i, a);
            c1 % 2 == 0 || c1 + m1 < UNIT
        }),
    ensures
        ({
            let (h1, c1, m1, a1) = hub_of_hsi(h, s, i, a);
            let (h2, s2, l2, a2) = hsl_of_hub(h1, c1, m1, a1);
            let (h3, c3, m3, a3) = hub_of_hsl(h2, s2, l2, a2);
            let (h4, s4, i4, a4) = hsi_of_hub(h3, c3, m3, a3);
            h4 == h && a4 == a && i - 1 <= i4 <= i + 1 && 2 * i4 * (s4 - s) <= 3 * UNIT + i4
                && 2 * i4 * (s - s4) <= 3 * UNIT + i4
        }),
{
    let u = UNIT as int;
    let m1 = div_round(i * (u - s), u);
    lemma_div_round(i * (u - s), u);
    assert(i * (u - s) <= u * i) by (nonlinear_arith)
        requires
            0 <= i,
            0 <= u - s <= u,
    ;
    lemma_div_round_le(i * (u - s), u, i);
    let c1 = div_round(3 * i * s, u + hexz(h));
    lemma_div_round(3 * i * s, u + hexz(h));
    lemma_hsl_hub_round_trip(h, c1, m1, a);
    lemma_hsi_decode_encode(h, s, i, a);
}


/// Decoding two hub colors that differ only in chroma, by at most 3 units,
/// gives RGB channels within 4 units of each other: the secondary channel
/// adds at most one unit of rounding to the chroma drift.
pub proof fn lemma_rgb_decode_chroma_perturbation(h: int, ca: int, cb: int, m: int, a: int)
    requires
        in_hue(h),
        0 <= ca,
        0 <= cb,
        ca + m <= UNIT,
        cb + m <= UNIT,
        0 <= m,
        in_unit(a),
        ca - 3 <= cb <= ca + 3,
    ensures
        ({
            let (r1, g1, b1, a1) = rgb_of_hub(h, ca, m, a);
            let (r2, g2, b2, a2) = rgb_of_hub(h, cb, m, a);
            r1 - 4 <= r2 <= r1 + 4 && g1 - 4 <= g2 <= g1 + 4 && b1 - 4 <= b2 <= b1 + 4 && a2
                == a1
        }),
{
    let u = UNIT as int;
    let z = hexz(h);
    assert(0 <= z <= u);
    let xa = div_round(ca * z, u);
    let xb = div_round(cb * z, u);
    lemma_div_round(ca * z, u);
    lemma_div_round(cb * z, u);
    assert(ca * z <= u * ca && cb * z <= u * cb) by (nonlinear_arith)
        requires
            0 <= ca,
            0 <= cb,
            0 <= z <= u,
    ;
    lemma_div_round_le(ca * z, u, ca);
    lemma_div_round_le(cb * z, u, cb);
    assert(xa - 4 <= xb <= xa + 4) by (nonlinear_arith)
        requires
            2 * (ca * z) - u < 2 * u * xa,
            2 * u * xa <= 2 * (ca * z) + u,
            2 * (cb * z) - u < 2 * u * xb,
            2 * u * xb <= 2 * (cb * z) + u,
            ca - 3 <= cb <= ca + 3,
            0 <= z <= u,
            0 < u,
    ;
}

/// Round trip identity from RGB through HSI and back: every channel comes
/// back within 10 units (the 6-unit hue grid step plus the 4-unit worth of
/// the HSI detour's 3-unit chroma drift); alpha is exact.
pub proof fn lemma_round_trip_rgb_hsi(r: int, g: int, b: int, a: int)
    requires
        in_unit(r),
        in_unit(g),
        in_unit(b),
        in_unit(a),
    ensures
        ({
            let (h1, c1, m1, a1) = hub_of_rgb(r, g, b, a);
            let (h2, s2, i2, a2) = hsi_of_hub(h1, c1, m1, a1);
            let (h3, c3, m3, a3) = hub_of_hsi(h2, s2, i2, a2);
            let (r4, g4, b4, a4) = rgb_of_hub(h3, c3, m3, a3);
            r - 10 <= r4 <= r + 10 && g - 10 <= g4 <= g + 10 && b - 10 <= b4 <= b + 10 && a4
                == a
        }),
{
    lemma_hub_of_rgb_valid(r, g, b, a);
    let (h1, c1, m1, a1) = hub_of_rgb(r, g, b, a);
    lemma_hsi_hub_round_trip(h1, c1, m1, a1);
    lemma_rgb_hub_round_trip(r, g, b, a);
    let (h2, s2, i2, a2) = hsi_of_hub(h1, c1, m1, a1);
    let (h3, c3, m3, a3) = hub_of_hsi(h2, s2, i2, a2);
    lemma_rgb_decode_chroma_perturbation(h1, c1, c3, m1, a);
}


/// The hexagonal waveform is 6-Lipschitz in the hue, measured around the
/// circle: two hues a circular step apart have waveform values at most six
/// times that step apart. In particular there is no jump at the wrap.
pub proof fn lemma_hexz_lipschitz(a: int, b: int)
    requires
        in_hue(a),
        in_hue(b),
    ensures
        hexz(a) - hexz(b) <= 6 * hue_dist(a, b),
        hexz(b) - hexz(a) <= 6 * hue_dist(a, b),
{
    let u = UNIT as int;
    vstd::arithmetic::div_mod::lemma_fundamental_div_mod(6 * a, 2 * u);
    vstd::arithmetic::div_mod::lemma_mod_division_less_than_divisor(6 * a, 2 * u);
    crate::math::lemma_div_floor(6 * a, 2 * u);
    crate::math::lemma_div_floor_lt(6 * a, 2 * u, 3);
    vstd::arithmetic::div_mod::lemma_fundamental_div_mod(6 * b, 2 * u);
    vstd::arithmetic::div_mod::lemma_mod_division_less_than_divisor(6 * b, 2 * u);
    crate::math::lemma_div_floor(6 * b, 2 * u);
    crate::math::lemma_div_floor_lt(6 * b, 2 * u, 3);
    let ka = (6 * a) / (2 * u);
    let ra = (6 * a) % (2 * u);
    let kb = (6 * b) / (2 * u);
    let rb = (6 * b) % (2 * u);
    assert(6 * a == 2 * u * ka + ra && 0 <= ra < 2 * u && 0 <= ka <= 2);
    assert(6 * b == 2 * u * kb + rb && 0 <= rb < 2 * u && 0 <= kb <= 2);
    assert(2 * u * ka == (if ka == 0 {
        0int
    } else if ka == 1 {
        2 * u
    } else {
        4 * u
    })) by (nonlinear_arith)
        requires
            0 <= ka <= 2,
    ;
    assert(2 * u * kb == (if kb == 0 {
        0int
    } else if kb == 1 {
        2 * u
    } else {
        4 * u
    })) by (nonlinear_arith)
        requires
            0 <= kb <= 2,
    ;
    assert(hexz(a) == (if ra <= u {
        ra
    } else {
        2 * u - ra
    }));
    assert(hexz(b) == (if rb <= u {
        rb
    } else {
        2 * u - rb
    }));
}


/// Round trip identity from HSI through RGB and back, for in-gamut HSI
/// colors: alpha comes back exactly, the intensity to within 5 units, the
/// saturation to within four and a half units plus half the returned
/// intensity's reciprocal (stated multiplied out by `2 i4`), and the hue
/// to within the chroma-scaled hue bound of the RGB encoder whenever the
/// color is chromatic; an achromatic color comes back with the canonical
/// hue 0.
pub proof fn lemma_round_trip_hsi_rgb(h: int, s: int, i: int, a: int)
    requires
        in_hue(h),
        in_unit(s),
        in_unit(i),
        in_unit(a),
        hsi_in_gamut(h, s, i),
    ensures
        ({
            let (h1, c1, m1, a1) = hub_of_hsi(h, s, i, a);
            let (r, g, b, a2) = rgb_of_hub(h1, c1, m1, a1);
            let (h3, c3, m3, a3) = hub_of_rgb(r, g, b, a2);
            let (h4, s4, i4, a4) = hsi_of_hub(h3, c3, m3, a3);
            a4 == a && i - 5 <= i4 <= i + 5 && 2 * i4 * (s4 - s) <= 11 * UNIT + i4 && 2 * i4 * (
            s - s4) <= 11 * UNIT + i4 && (if c1 == 0 {
                h4 == 0
            } else {
                12 * c1 * hue_dist(h4, h) <= UNIT + 12 * c1
            })
        }),
{
    let u = UNIT as int;
    let z = hexz(h);
    assert(0 <= z <= u);
    let m1 = div_round(i * (u - s), u);
    lemma_div_round(i * (u - s), u);
    assert(i * (u - s) <= u * i && i * (u - s) <= u * u) by (nonlinear_arith)
        requires
            0 <= i <= u,
            0 <= s <= u,
    ;
    lemma_div_round_le(i * (u - s), u, i);
    let c1 = div_round(3 * i * s, u + z);
    lemma_div_round(3 * i * s, u + z);
    assert(c1 + m1 <= u);
    lemma_rgb_hub_reencode(h, c1, m1, a);
    let (rr, gg, bb, aa2) = rgb_of_hub(h, c1, m1, a);
    let (h3, c3, m3, a3) = hub_of_rgb(rr, gg, bb, aa2);
    if c1 == 0 {
        // Achromatic: the gray triple comes back as intensity m1, which
        // here equals the original intensity exactly.
        assert(h3 == 0 && c3 == 0 && m3 == m1);
        assert(3 * i * s == 3 * (i * s) && i * (u - s) == i * u - i * s) by (nonlinear_arith);
        assert(6 * (i * s) < u + z) by (nonlinear_arith)
            requires
                2 * (3 * i * s) - (u + z) < 2 * (u + z) * c1,
                c1 == 0,
                3 * i * s == 3 * (i * s),
        ;
        assert(m1 == i) by (nonlinear_arith)
            requires
                2 * (i * (u - s)) - u < 2 * u * m1,
                2 * u * m1 <= 2 * (i * (u - s)) + u,
                6 * (i * s) < u + z,
                i * (u - s) == i * u - i * s,
                0 <= z <= u,
                0 < u,
                0 <= i,
                0 <= s,
        ;
        assert(hexz(0) == 0);
        assert(c3 * (u + hexz(0)) == 0) by (nonlinear_arith)
            requires
                c3 == 0,
        ;
        crate::math::lemma_div_round_zero(3 * u);
        let i4 = m1 + div_round(c3 * (u + hexz(0)), 3 * u);
        assert(i4 == i);
        if i4 == 0 {
            assert(2 * i4 * (0 - s) == 0 && 2 * i4 * (s - 0) == 0) by (nonlinear_arith)
                requires
                    i4 == 0,
            ;
        } else {
            crate::math::lemma_div_round_exact(u, i4);
            assert(m1 * u == u * i4) by (nonlinear_arith)
                requires
                    m1 == i4,
            ;
            // The returned saturation is 0; the original saturation is
            // small because the chroma rounded to zero.
            assert(2 * i4 * (s - 0) <= 11 * u + i4 && 2 * i4 * (0 - s) <= 11 * u + i4)
                by (nonlinear_arith)
                requires
                    6 * (i * s) < u + z,
                    i4 == i,
                    0 <= z <= u,
                    0 <= s <= u,
                    0 < i4,
                    0 < u,
        ;
        }
    } else {
        assert(c3 == c1 && m3 == m1 && 12 * c1 * hue_dist(h3, h) <= u + 12 * c1);
        // The re-encoded hue is a hue, so the waveform moves by at most
        // six times the hue's circular drift.
        assert(in_hue(h3)) by {
            lemma_hub_of_rgb_valid(rr, gg, bb, aa2);
        };
        lemma_hexz_lipschitz(h3, h);
        let z3 = hexz(h3);
        let dd = hue_dist(h3, h);
        assert(2 * (c1 * z3) - 2 * (c1 * z) <= u + 12 * c1 && 2 * (c1 * z) - 2 * (c1 * z3) <= u
            + 12 * c1) by (nonlinear_arith)
            requires
                z3 - z <= 6 * dd,
                z - z3 <= 6 * dd,
                12 * c1 * dd <= u + 12 * c1,
                0 <= dd,
                0 < c1,
        ;
        let q1 = div_round(c1 * (u + z), 3 * u);
        let q4 = div_round(c1 * (u + z3), 3 * u);
        lemma_div_round(c1 * (u + z), 3 * u);
        lemma_div_round(c1 * (u + z3), 3 * u);
        assert(c1 * (u + z) == c1 * u + c1 * z && c1 * (u + z3) == c1 * u + c1 * z3)
            by (nonlinear_arith);
        assert(q1 - 3 <= q4 <= q1 + 3) by (nonlinear_arith)
            requires
                2 * (c1 * (u + z)) - 3 * u < 2 * (3 * u) * q1,
                2 * (3 * u) * q1 <= 2 * (c1 * (u + z)) + 3 * u,
                2 * (c1 * (u + z3)) - 3 * u < 2 * (3 * u) * q4,
                2 * (3 * u) * q4 <= 2 * (c1 * (u + z3)) + 3 * u,
                c1 * (u + z) == c1 * u + c1 * z,
                c1 * (u + z3) == c1 * u + c1 * z3,
                2 * (c1 * z3) - 2 * (c1 * z) <= u + 12 * c1,
                2 * (c1 * z) - 2 * (c1 * z3) <= u + 12 * c1,
                0 < c1 <= u,
                0 < u,
        ;
        lemma_hsi_decode_encode(h, s, i, a);
        let id = m1 + q1;
        assert(i - 1 <= id <= i + 1);
        let i4 = m1 + q4;
        assert(i - 4 <= i4 <= i + 4);
        if i4 == 0 {
            assert(2 * i4 * (0 - s) == 0 && 2 * i4 * (s - 0) == 0) by (nonlinear_arith)
                requires
                    i4 == 0,
            ;
        } else {
            let w4 = div_round(m1 * u, i4);
            lemma_div_round(m1 * u, i4);
            assert(m1 * u <= i4 * u) by (nonlinear_arith)
                requires
                    m1 <= i4,
                    0 <= u,
            ;
            lemma_div_round_le(m1 * u, i4, u);
            let s4 = u - w4;
            assert(2 * u * m1 == 2 * (m1 * u)) by (nonlinear_arith);
            assert(-8 * u <= 2 * (i * (u - s)) - 2 * (i4 * (u - s)) && 2 * (i * (u - s)) - 2 * (
            i4 * (u - s)) <= 8 * u) by (nonlinear_arith)
                requires
                    i - 4 <= i4 <= i + 4,
                    0 <= s <= u,
            ;
            assert(2 * i4 * (s4 - s) == 2 * (i4 * (u - s)) - 2 * (i4 * w4) && 2 * i4 * (s - s4)
                == 2 * (i4 * w4) - 2 * (i4 * (u - s)) && 2 * i4 * w4 == 2 * (i4 * w4))
                by (nonlinear_arith)
                requires
                    s4 == u - w4,
            ;
            assert(2 * i4 * (s4 - s) <= 11 * u + i4 && 2 * i4 * (s - s4) <= 11 * u + i4);
        }
    }
}

} // verus!
