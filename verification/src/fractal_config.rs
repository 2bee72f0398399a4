//! The kind of fractal to render and the parameters shared by all kinds.

use vstd::prelude::*;
use crate::float_bits::Float64;

verus! {

/// The kind of fractal to render. A pure tag; all parameters live in
/// [`FractalConfig`].
#[derive(Clone, Copy, Debug, PartialEq, Eq, Structural)]
pub enum FractalType {
    Mandelbrot,
    Julia,
    BurningShip,
    Tricorn,
    Celtic,
}

impl Default for FractalType {
    /// The Mandelbrot set.
    fn default() -> (r: Self)
        ensures
            r == FractalType::Mandelbrot,
    {
        FractalType::Mandelbrot
    }
}

/// The parametric representation of the fractal: its type plus the shared
/// parameters. `exponent` must be >= 2 where it is rendered. The seed is only
/// used by the Julia set; it is ignored (but harmless) otherwise.
#[derive(Clone, Copy, Debug)]
pub struct FractalConfig {
    pub fractal_type: FractalType,
    pub exponent: u32,
    pub seed_real: Float64,
    pub seed_imag: Float64,
}

impl Default for FractalConfig {
    /// The Mandelbrot set with exponent 2 and seed 0.
    fn default() -> (r: Self)
        ensures
            r.fractal_type == FractalType::Mandelbrot,
            r.exponent == 2,
            r.seed_real.0 == 0,
            r.seed_imag.0 == 0,
    {
        FractalConfig {
            fractal_type: FractalType::Mandelbrot,
            exponent: 2,
            seed_real: Float64::zero(),
            seed_imag: Float64::zero(),
        }
    }
}

} // verus!
