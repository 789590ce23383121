//! The color value types: one struct per color space, plus the small traits
//! that let other color representations plug into the same conversion code.
//!
//! Every component is a fixed-point fraction of [`UNIT`]. A validating
//! constructor clamps ordinary components into `[0, UNIT]` and wraps hue
//! components into `[0, UNIT)`; an unchecked constructor trusts its caller to
//! pass components that are already in range. Each type carries its range
//! restriction as a type invariant, so a value of one of these types is in
//! range however it was made.

use vstd::prelude::*;

verus! {

/// The fixed-point scale: this many units stand for the real value `1.0`.
///
/// The scale is divisible by 6 (hue sector arithmetic is exact at the six
/// sector boundaries) and by 100000 (five decimal digits are exactly
/// representable).
pub const UNIT: u32 = 3600000;

/// What the validating constructors do to an ordinary component: values
/// below the range become 0, values above it become `UNIT`.
pub open spec fn clamp_unit(x: int) -> int {
    if x < 0 {
        0
    } else if x > UNIT {
        UNIT as int
    } else {
        x
    }
}

/// What the validating constructors do to a hue component: a true modulo
/// into `[0, UNIT)`, so a negative hue wraps to a non-negative angle.
pub open spec fn wrap_hue(x: int) -> int {
    x % (UNIT as int)
}

/// An ordinary component is in range.
pub open spec fn in_unit(x: int) -> bool {
    0 <= x <= UNIT
}

/// A hue component is in range: `UNIT` itself is excluded because the hue
/// circle wraps, `0` and `UNIT` being the same angle.
pub open spec fn in_hue(x: int) -> bool {
    0 <= x < UNIT
}

/// Clamps one component into `[0, UNIT]`.
pub(crate) fn clamp_component(x: i64) -> (r: u32)
    ensures
        r == clamp_unit(x as int),
{
    if x < 0 {
        0
    } else if x > UNIT as i64 {
        UNIT
    } else {
        x as u32
    }
}

/// Wraps one hue component into `[0, UNIT)` by a true modulo.
pub(crate) fn wrap_component(x: i64) -> (r: u32)
    ensures
        r == wrap_hue(x as int),
{
    let u: u64 = UNIT as u64;
    if x >= 0 {
        let r64: u64 = (x as u64) % u;
        r64 as u32
    } else {
        let neg: u64 = (-(x as i128)) as u64;
        let k: u64 = neg % u;
        proof {
            vstd::arithmetic::div_mod::lemma_fundamental_div_mod(neg as int, u as int);
            vstd::arithmetic::div_mod::lemma_fundamental_div_mod_converse(
                x as int,
                u as int,
                -((neg / u) as int) - (if k == 0 { 0int } else { 1int }),
                if k == 0 { 0int } else { (u - k) as int },
            );
        }
        if k == 0 {
            0
        } else {
            (u - k) as u32
        }
    }
}

/// A color in RGBA space; every component is in `[0, UNIT]`.
#[derive(Debug, PartialEq, Eq, Structural, Clone, Copy)]
pub struct ColorRGBA {
    /// The red component
    r: u32,
    /// The green component
    g: u32,
    /// The blue component
    b: u32,
    /// The alpha component
    a: u32,
}

impl ColorRGBA {
    /// The red component.
    pub closed spec fn red(self) -> int {
        self.r as int
    }

    /// The green component.
    pub closed spec fn green(self) -> int {
        self.g as int
    }

    /// The blue component.
    pub closed spec fn blue(self) -> int {
        self.b as int
    }

    /// The alpha component.
    pub closed spec fn alpha(self) -> int {
        self.a as int
    }

    /// All four components as a tuple, in the order red, green, blue,
    /// alpha.
    pub open spec fn parts(self) -> (int, int, int, int) {
        (self.red(), self.green(), self.blue(), self.alpha())
    }

    /// All four components are in range; holds of every value of this type.
    #[verifier::type_invariant]
    pub open spec fn valid(self) -> bool {
        in_unit(self.red()) && in_unit(self.green()) && in_unit(self.blue()) && in_unit(
            self.alpha(),
        )
    }

    /// Constructs a new rgba color; every component is clamped into
    /// `[0, UNIT]`.
    pub fn new(r: i64, g: i64, b: i64, a: i64) -> (result: Self)
        ensures
            result.red() == clamp_unit(r as int),
            result.green() == clamp_unit(g as int),
            result.blue() == clamp_unit(b as int),
            result.alpha() == clamp_unit(a as int),
    {
        Self {
            r: clamp_component(r),
            g: clamp_component(g),
            b: clamp_component(b),
            a: clamp_component(a),
        }
    }

    /// Constructs a new rgba color with the alpha component equal to `UNIT`;
    /// the other components are clamped into `[0, UNIT]`.
    pub fn new_rgb(r: i64, g: i64, b: i64) -> (result: Self)
        ensures
            result.red() == clamp_unit(r as int),
            result.green() == clamp_unit(g as int),
            result.blue() == clamp_unit(b as int),
            result.alpha() == UNIT,
    {
        Self::new(r, g, b, UNIT as i64)
    }

    /// Constructs a new rgba color without validating the input: the caller
    /// attests that every component is already in range.
    pub fn new_unsafe(r: u32, g: u32, b: u32, a: u32) -> (result: Self)
        requires
            in_unit(r as int),
            in_unit(g as int),
            in_unit(b as int),
            in_unit(a as int),
        ensures
            result.red() == r,
            result.green() == g,
            result.blue() == b,
            result.alpha() == a,
    {
        Self { r, g, b, a }
    }

    /// Retrieves the red component of the color.
    pub fn get_red(&self) -> (r: u32)
        ensures
            r == self.red(),
    {
        self.r
    }

    /// Retrieves the green component of the color.
    pub fn get_green(&self) -> (r: u32)
        ensures
            r == self.green(),
    {
        self.g
    }

    /// Retrieves the blue component of the color.
    pub fn get_blue(&self) -> (r: u32)
        ensures
            r == self.blue(),
    {
        self.b
    }

    /// Retrieves the alpha component of the color.
    pub fn get_alpha(&self) -> (r: u32)
        ensures
            r == self.alpha(),
    {
        self.a
    }

    /// Retrieves all the color components in an array in the order: red,
    /// green, blue, alpha.
    pub fn get(&self) -> (r: [u32; 4])
        ensures
            r@.len() == 4,
            r@[0] == self.red(),
            r@[1] == self.green(),
            r@[2] == self.blue(),
            r@[3] == self.alpha(),
    {
        [self.r, self.g, self.b, self.a]
    }
}

/// A color in HSLA space; hue is in `[0, UNIT)`, the other components are
/// in `[0, UNIT]`.
#[derive(Debug, PartialEq, Eq, Structural, Clone, Copy)]
pub struct ColorHSLA {
    /// The hue component
    h: u32,
    /// The saturation component
    s: u32,
    /// The lightness component
    l: u32,
    /// The alpha component
    a: u32,
}

impl ColorHSLA {
    /// The hue component.
    pub closed spec fn hue(self) -> int {
        self.h as int
    }

    /// The saturation component.
    pub closed spec fn sat(self) -> int {
        self.s as int
    }

    /// The lightness component.
    pub closed spec fn light(self) -> int {
        self.l as int
    }

    /// The alpha component.
    pub closed spec fn alpha(self) -> int {
        self.a as int
    }

    /// All four components as a tuple, in the order hue, saturation,
    /// lightness, alpha.
    pub open spec fn parts(self) -> (int, int, int, int) {
        (self.hue(), self.sat(), self.light(), self.alpha())
    }

    /// All four components are in range; holds of every value of this type.
    #[verifier::type_invariant]
    pub open spec fn valid(self) -> bool {
        in_hue(self.hue()) && in_unit(self.sat()) && in_unit(self.light()) && in_unit(
            self.alpha(),
        )
    }

    /// Constructs a new hsla color; the hue is wrapped into `[0, UNIT)` and
    /// the other components are clamped into `[0, UNIT]`.
    pub fn new(h: i64, s: i64, l: i64, a: i64) -> (result: Self)
        ensures
            result.hue() == wrap_hue(h as int),
            result.sat() == clamp_unit(s as int),
            result.light() == clamp_unit(l as int),
            result.alpha() == clamp_unit(a as int),
    {
        Self {
            h: wrap_component(h),
            s: clamp_component(s),
            l: clamp_component(l),
            a: clamp_component(a),
        }
    }

    /// Constructs a new hsla color with the alpha component equal to `UNIT`;
    /// the hue is wrapped and the other components are clamped.
    pub fn new_hsl(h: i64, s: i64, l: i64) -> (result: Self)
        ensures
            result.hue() == wrap_hue(h as int),
            result.sat() == clamp_unit(s as int),
            result.light() == clamp_unit(l as int),
            result.alpha() == UNIT,
    {
        Self::new(h, s, l, UNIT as i64)
    }

    /// Constructs a new hsla color without validating the input: the caller
    /// attests that every component is already in range.
    pub fn new_unsafe(h: u32, s: u32, l: u32, a: u32) -> (result: Self)
        requires
            in_hue(h as int),
            in_unit(s as int),
            in_unit(l as int),
            in_unit(a as int),
        ensures
            result.hue() == h,
            result.sat() == s,
            result.light() == l,
            result.alpha() == a,
    {
        Self { h, s, l, a }
    }

    /// Retrieves the hue component of the color.
    pub fn get_hue(&self) -> (r: u32)
        ensures
            r == self.hue(),
    {
        self.h
    }

    /// Retrieves the saturation component of the color.
    pub fn get_saturation(&self) -> (r: u32)
        ensures
            r == self.sat(),
    {
        self.s
    }

    /// Retrieves the lightness component of the color.
    pub fn get_lightness(&self) -> (r: u32)
        ensures
            r == self.light(),
    {
        self.l
    }

    /// Retrieves the alpha component of the color.
    pub fn get_alpha(&self) -> (r: u32)
        ensures
            r == self.alpha(),
    {
        self.a
    }

    /// Retrieves all the color components in an array in the order: hue,
    /// saturation, lightness, alpha.
    pub fn get(&self) -> (r: [u32; 4])
        ensures
            r@.len() == 4,
            r@[0] == self.hue(),
            r@[1] == self.sat(),
            r@[2] == self.light(),
            r@[3] == self.alpha(),
    {
        [self.h, self.s, self.l, self.a]
    }
}

/// A color in HSVA space; hue is in `[0, UNIT)`, the other components are
/// in `[0, UNIT]`.
#[derive(Debug, PartialEq, Eq, Structural, Clone, Copy)]
pub struct ColorHSVA {
    /// The hue component
    h: u32,
    /// The saturation component
    s: u32,
    /// The value component
    v: u32,
    /// The alpha component
    a: u32,
}

impl ColorHSVA {
    /// The hue component.
    pub closed spec fn hue(self) -> int {
        self.h as int
    }

    /// The saturation component.
    pub closed spec fn sat(self) -> int {
        self.s as int
    }

    /// The value component.
    pub closed spec fn val(self) -> int {
        self.v as int
    }

    /// The alpha component.
    pub closed spec fn alpha(self) -> int {
        self.a as int
    }

    /// All four components as a tuple, in the order hue, saturation,
    /// value, alpha.
    pub open spec fn parts(self) -> (int, int, int, int) {
        (self.hue(), self.sat(), self.val(), self.alpha())
    }

    /// All four components are in range; holds of every value of this type.
    #[verifier::type_invariant]
    pub open spec fn valid(self) -> bool {
        in_hue(self.hue()) && in_unit(self.sat()) && in_unit(self.val()) && in_unit(self.alpha())
    }

    /// Constructs a new hsva color; the hue is wrapped into `[0, UNIT)` and
    /// the other components are clamped into `[0, UNIT]`.
    pub fn new(h: i64, s: i64, v: i64, a: i64) -> (result: Self)
        ensures
            result.hue() == wrap_hue(h as int),
            result.sat() == clamp_unit(s as int),
            result.val() == clamp_unit(v as int),
            result.alpha() == clamp_unit(a as int),
    {
        Self {
            h: wrap_component(h),
            s: clamp_component(s),
            v: clamp_component(v),
            a: clamp_component(a),
        }
    }

    /// Constructs a new hsva color with the alpha component equal to `UNIT`;
    /// the hue is wrapped and the other components are clamped.
    pub fn new_hsv(h: i64, s: i64, v: i64) -> (result: Self)
        ensures
            result.hue() == wrap_hue(h as int),
            result.sat() == clamp_unit(s as int),
            result.val() == clamp_unit(v as int),
            result.alpha() == UNIT,
    {
        Self::new(h, s, v, UNIT as i64)
    }

    /// Constructs a new hsva color without validating the input: the caller
    /// attests that every component is already in range.
    pub fn new_unsafe(h: u32, s: u32, v: u32, a: u32) -> (result: Self)
        requires
            in_hue(h as int),
            in_unit(s as int),
            in_unit(v as int),
            in_unit(a as int),
        ensures
            result.hue() == h,
            result.sat() == s,
            result.val() == v,
            result.alpha() == a,
    {
        Self { h, s, v, a }
    }

    /// Retrieves the hue component of the color.
    pub fn get_hue(&self) -> (r: u32)
        ensures
            r == self.hue(),
    {
        self.h
    }

    /// Retrieves the saturation component of the color.
    pub fn get_saturation(&self) -> (r: u32)
        ensures
            r == self.sat(),
    {
        self.s
    }

    /// Retrieves the value component of the color.
    pub fn get_value(&self) -> (r: u32)
        ensures
            r == self.val(),
    {
        self.v
    }

    /// Retrieves the alpha component of the color.
    pub fn get_alpha(&self) -> (r: u32)
        ensures
            r == self.alpha(),
    {
        self.a
    }

    /// Retrieves all the color components in an array in the order: hue,
    /// saturation, value, alpha.
    pub fn get(&self) -> (r: [u32; 4])
        ensures
            r@.len() == 4,
            r@[0] == self.hue(),
            r@[1] == self.sat(),
            r@[2] == self.val(),
            r@[3] == self.alpha(),
    {
        [self.h, self.s, self.v, self.a]
    }
}

/// A color in HSIA space; hue is in `[0, UNIT)`, the other components are
/// in `[0, UNIT]`.
#[derive(Debug, PartialEq, Eq, Structural, Clone, Copy)]
pub struct ColorHSIA {
    /// The hue component
    h: u32,
    /// The saturation component
    s: u32,
    /// The intensity component
    i: u32,
    /// The alpha component
    a: u32,
}

impl ColorHSIA {
    /// The hue component.
    pub closed spec fn hue(self) -> int {
        self.h as int
    }

    /// The saturation component.
    pub closed spec fn sat(self) -> int {
        self.s as int
    }

    /// The intensity component.
    pub closed spec fn intens(self) -> int {
        self.i as int
    }

    /// The alpha component.
    pub closed spec fn alpha(self) -> int {
        self.a as int
    }

    /// All four components as a tuple, in the order hue, saturation,
    /// intensity, alpha.
    pub open spec fn parts(self) -> (int, int, int, int) {
        (self.hue(), self.sat(), self.intens(), self.alpha())
    }

    /// All four components are in range; holds of every value of this type.
    #[verifier::type_invariant]
    pub open spec fn valid(self) -> bool {
        in_hue(self.hue()) && in_unit(self.sat()) && in_unit(self.intens()) && in_unit(
            self.alpha(),
        )
    }

    /// Constructs a new hsia color; the hue is wrapped into `[0, UNIT)` and
    /// the other components are clamped into `[0, UNIT]`.
    pub fn new(h: i64, s: i64, i: i64, a: i64) -> (result: Self)
        ensures
            result.hue() == wrap_hue(h as int),
            result.sat() == clamp_unit(s as int),
            result.intens() == clamp_unit(i as int),
            result.alpha() == clamp_unit(a as int),
    {
        Self {
            h: wrap_component(h),
            s: clamp_component(s),
            i: clamp_component(i),
            a: clamp_component(a),
        }
    }

    /// Constructs a new hsia color with the alpha component equal to `UNIT`;
    /// the hue is wrapped and the other components are clamped.
    pub fn new_hsi(h: i64, s: i64, i: i64) -> (result: Self)
        ensures
            result.hue() == wrap_hue(h as int),
            result.sat() == clamp_unit(s as int),
            result.intens() == clamp_unit(i as int),
            result.alpha() == UNIT,
    {
        Self::new(h, s, i, UNIT as i64)
    }

    /// Constructs a new hsia color without validating the input: the caller
    /// attests that every component is already in range.
    pub fn new_unsafe(h: u32, s: u32, i: u32, a: u32) -> (result: Self)
        requires
            in_hue(h as int),
            in_unit(s as int),
            in_unit(i as int),
            in_unit(a as int),
        ensures
            result.hue() == h,
            result.sat() == s,
            result.intens() == i,
            result.alpha() == a,
    {
        Self { h, s, i, a }
    }

    /// Retrieves the hue component of the color.
    pub fn get_hue(&self) -> (r: u32)
        ensures
            r == self.hue(),
    {
        self.h
    }

    /// Retrieves the saturation component of the color.
    pub fn get_saturation(&self) -> (r: u32)
        ensures
            r == self.sat(),
    {
        self.s
    }

    /// Retrieves the intensity component of the color.
    pub fn get_intensity(&self) -> (r: u32)
        ensures
            r == self.intens(),
    {
        self.i
    }

    /// Retrieves the alpha component of the color.
    pub fn get_alpha(&self) -> (r: u32)
        ensures
            r == self.alpha(),
    {
        self.a
    }

    /// Retrieves all the color components in an array in the order: hue,
    /// saturation, intensity, alpha.
    pub fn get(&self) -> (r: [u32; 4])
        ensures
            r@.len() == 4,
            r@[0] == self.hue(),
            r@[1] == self.sat(),
            r@[2] == self.intens(),
            r@[3] == self.alpha(),
    {
        [self.h, self.s, self.i, self.a]
    }
}

/// A generic N-dimensional color; every component is clamped into
/// `[0, UNIT]` at construction.
#[derive(Debug, PartialEq)]
pub struct ColorND<const N: usize> {
    values: Vec<u32>,
}

impl<const N: usize> ColorND<N> {
    /// The components of the color.
    pub closed spec fn components(self) -> Seq<int> {
        self.values@.map(|_i: int, v: u32| v as int)
    }

    /// There are `N` components and each is in range; holds of every value
    /// of this type.
    #[verifier::type_invariant]
    pub open spec fn valid(self) -> bool {
        self.components().len() == N && forall|i: int|
            0 <= i < N ==> in_unit(#[trigger] self.components()[i])
    }

    /// Constructs a new N-dimensional color; every component is clamped
    /// into `[0, UNIT]`.
    pub fn new(values: &[i64; N]) -> (result: Self)
        ensures
            result.components().len() == N,
            forall|i: int|
                0 <= i < N ==> #[trigger] result.components()[i] == clamp_unit(values@[i] as int),
    {
        let mut clamped: Vec<u32> = Vec::new();
        let mut i: usize = 0;
        while i < N
            invariant
                i <= N,
                clamped@.len() == i,
                forall|j: int| 0 <= j < i ==> #[trigger] clamped@[j] == clamp_unit(values@[j] as int),
            decreases N - i,
        {
            clamped.push(clamp_component(values[i]));
            i = i + 1;
        }
        Self { values: clamped }
    }

    /// Retrieves all the color components.
    pub fn get(&self) -> (r: &Vec<u32>)
        ensures
            r@.len() == N,
            forall|i: int| 0 <= i < N ==> #[trigger] r@[i] == self.components()[i],
    {
        proof {
            use_type_invariant(self);
        }
        &self.values
    }
}

impl<const N: usize> Clone for ColorND<N> {
    /// Clones the color, keeping every component.
    fn clone(&self) -> (result: Self)
        ensures
            result.components() == self.components(),
    {
        proof {
            use_type_invariant(self);
        }
        Self { values: self.values.clone() }
    }
}

/// Defines a single color which can be expressed in RGBA.
pub trait Color {
    /// The RGBA components this color stands for, in the order red, green,
    /// blue, alpha.
    spec fn rgba_spec(&self) -> (int, int, int, int);

    /// Retrieves the rgba color for this color.
    fn get_rgba(&self) -> (result: ColorRGBA)
        ensures
            result.parts() == self.rgba_spec(),
    ;
}

impl Color for ColorRGBA {
    /// An RGBA color stands for itself.
    open spec fn rgba_spec(&self) -> (int, int, int, int) {
        self.parts()
    }

    fn get_rgba(&self) -> (result: ColorRGBA)
        ensures
            result.parts() == self.rgba_spec(),
    {
        *self
    }
}

/// Defines a color map which can convert an N-dimensional color into a
/// normal color.
pub trait ColorMap<const N: usize> {
    /// The color type the map produces.
    type Output: Color;

    /// Retrieves the normal color from the N-dimensional color.
    fn get_color(&self, color: ColorND<N>) -> Self::Output;
}

} // verus!
