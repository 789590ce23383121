//! Default colors for quick use.

use vstd::prelude::*;

use crate::definitions::{clamp_unit, in_unit, Color, ColorRGBA, UNIT};

verus! {

/// A color in the gray spectrum.
#[derive(Debug, PartialEq, Eq, Structural, Clone, Copy)]
pub struct Grays {
    /// The value for the color, 0: black, UNIT: white
    v: u32,
    /// The alpha value
    a: u32,
}

impl Grays {
    /// The gray value.
    pub closed spec fn val(self) -> int {
        self.v as int
    }

    /// The alpha component.
    pub closed spec fn alpha(self) -> int {
        self.a as int
    }

    /// Both components are in range; holds of every value of this type.
    #[verifier::type_invariant]
    pub open spec fn valid(self) -> bool {
        in_unit(self.val()) && in_unit(self.alpha())
    }

    /// Constructs a new gray color; both components are clamped into
    /// `[0, UNIT]`.
    pub fn new(v: i64, a: i64) -> (result: Self)
        ensures
            result.val() == clamp_unit(v as int),
            result.alpha() == clamp_unit(a as int),
    {
        Self { v: crate::definitions::clamp_component(v), a: crate::definitions::clamp_component(a) }
    }

    /// Constructs a new gray color without validating the input: the caller
    /// attests that both components are already in range.
    pub fn new_unsafe(v: u32, a: u32) -> (result: Self)
        requires
            in_unit(v as int),
            in_unit(a as int),
        ensures
            result.val() == v,
            result.alpha() == a,
    {
        Self { v, a }
    }
}

impl Color for Grays {
    /// A gray color stands for the RGBA color with all three channels at
    /// its gray value.
    open spec fn rgba_spec(&self) -> (int, int, int, int) {
        (self.val(), self.val(), self.val(), self.alpha())
    }

    fn get_rgba(&self) -> (result: ColorRGBA)
        ensures
            result.parts() == self.rgba_spec(),
    {
        proof {
            use_type_invariant(self);
        }
        ColorRGBA::new_unsafe(self.v, self.v, self.v, self.a)
    }
}

} // verus!
