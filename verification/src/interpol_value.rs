//! The value types carried by the animation tracks.

use vstd::prelude::*;
use crate::float_bits::Float64;

verus! {

/// A complex number given by its real and imaginary `f64` parts, as used by
/// the animation system and the focal system.
#[derive(Clone, Copy, Debug)]
pub struct PseudoComplex {
    pub real: Float64,
    pub imag: Float64,
}

impl PseudoComplex {
    /// Creates the number from its parts.
    pub fn new(real_part: Float64, imag_part: Float64) -> (r: PseudoComplex)
        ensures
            r.real == real_part,
            r.imag == imag_part,
    {
        PseudoComplex { real: real_part, imag: imag_part }
    }
}

/// A spatial extension (the half width of the view); it is interpolated in
/// logarithmic space.
#[derive(Clone, Copy, Debug)]
pub struct SpatialExtension(pub Float64);

} // verus!
