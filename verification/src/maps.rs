//! Default color maps for quick use.

use vstd::prelude::*;

use crate::definitions::{clamp_unit, in_unit, ColorMap, ColorND, UNIT};

verus! {

/// A color map in the gray spectrum.
#[derive(Debug, PartialEq, Eq, Structural, Clone, Copy)]
pub struct Grays {
    /// The alpha value
    a: u32,
}

impl Grays {
    /// The alpha component.
    pub closed spec fn alpha(self) -> int {
        self.a as int
    }

    /// The alpha component is in range; holds of every value of this type.
    #[verifier::type_invariant]
    pub open spec fn valid(self) -> bool {
        in_unit(self.alpha())
    }

    /// Constructs a new gray color map; the alpha component is clamped
    /// into `[0, UNIT]`.
    pub fn new(a: i64) -> (result: Self)
        ensures
            result.alpha() == clamp_unit(a as int),
    {
        Self { a: crate::definitions::clamp_component(a) }
    }

    /// Constructs a new gray color map without validating the input: the
    /// caller attests that the alpha component is already in range.
    pub fn new_unsafe(a: u32) -> (result: Self)
        requires
            in_unit(a as int),
        ensures
            result.alpha() == a,
    {
        Self { a }
    }
}

impl ColorMap<1> for Grays {
    type Output = crate::colors::Grays;

    fn get_color(&self, color: ColorND<1>) -> (result: crate::colors::Grays) {
        proof {
            use_type_invariant(self);
            use_type_invariant(&color);
        }
        let v: u32 = color.get()[0];
        crate::colors::Grays::new_unsafe(v, self.a)
    }
}

} // verus!
