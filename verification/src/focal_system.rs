//! Configuration of the focal (autofocus) search: the fractal searched, the
//! annulus candidates are scattered in, and the scale they are judged at.

use vstd::prelude::*;
use crate::float_bits::{Float64, le64, lemma_le64_fields, lemma_lt64_fields, lt64};
use crate::fractal_config::{FractalConfig, FractalType};
use crate::interpol_value::PseudoComplex;

verus! {

/// The bit pattern of the `f64` value `1.5`.
pub const DEFAULT_SEARCH_EXTENSION_BITS: u64 = 0x3FF8_0000_0000_0000u64;

/// The search radii satisfy `0 <= extension_min < extension` as `f64`
/// comparisons (so neither may be NaN).
pub open spec fn valid_search_radii(extension_min: Float64, extension: Float64) -> bool {
    le64(0, extension_min.0) && lt64(extension_min.0, extension.0)
}

/// With the inner radius at `0.0`, every outer radius that is finite and
/// greater than zero (sign bit clear, not `+0.0`, exponent field not all ones)
/// is valid.
pub proof fn lemma_zero_inner_radius_is_valid(extension: Float64)
    requires
        extension.0 >> 63u64 == 0u64,
        extension.0 != 0u64,
        (extension.0 >> 52u64) != 0x7FFu64,
    ensures
        valid_search_radii(Float64(0), extension),
{
    let e = extension.0;
    lemma_le64_fields(0, 0);
    lemma_lt64_fields(0, e);
    assert(!((e & 0x7FF0_0000_0000_0000u64) == 0x7FF0_0000_0000_0000u64)) by (bit_vector)
        requires
            e >> 63u64 == 0u64,
            (e >> 52u64) != 0x7FFu64,
    ;
    assert(((0u64 & 0x7FF0_0000_0000_0000u64) == 0u64) && (0u64 >> 63u64 == 0u64)
        && (0u64 & 0x7FFF_FFFF_FFFF_FFFFu64) == 0u64) by (bit_vector);
}

/// Search radii that violate `0 <= extension_min < extension`.
#[derive(Clone, Copy, Debug)]
pub struct SearchRadiusError {
    pub extension_min: Float64,
    pub extension: Float64,
}

/// Checks the search-radius invariant `0 <= extension_min < extension`. A
/// violated invariant would make candidate positions NaN.
pub fn validate_search_radii(extension_min: Float64, extension: Float64) -> (r: Result<
    (),
    SearchRadiusError,
>)
    ensures
        r is Ok <==> valid_search_radii(extension_min, extension),
        r matches Err(e) ==> e.extension_min == extension_min && e.extension == extension,
{
    if !(Float64::zero().le(&extension_min) && extension_min.lt(&extension)) {
        return Err(SearchRadiusError { extension_min, extension });
    }
    Ok(())
}

/// How focal points are arranged in a sequence.
#[derive(Clone, Copy, Debug, PartialEq, Eq, Structural)]
pub enum PathGenerationCriterion {
    /// A reasonably short path (greedy approximation of the travelling salesman tour).
    ShortPath,
    /// Descending evaluation (most interesting point to least interesting one).
    DescendingValuePath,
}

/// The configuration point of the focal system. The search radii always
/// satisfy `0 <= extension_min < extension`.
#[derive(Debug)]
pub struct FocalSystemInterface {
    center_point: PseudoComplex,
    extension_min: Float64,
    extension: Float64,
    evaluation_extension: Float64,
    maximum_iterations: u16,
    fractal_config: FractalConfig,
}

impl FocalSystemInterface {
    #[verifier::type_invariant]
    spec fn radii_valid(self) -> bool {
        valid_search_radii(self.extension_min, self.extension)
    }

    /// The center of the search region.
    pub closed spec fn spec_center_point(self) -> PseudoComplex {
        self.center_point
    }

    /// The inner search radius.
    pub closed spec fn spec_extension_min(self) -> Float64 {
        self.extension_min
    }

    /// The outer search radius.
    pub closed spec fn spec_extension(self) -> Float64 {
        self.extension
    }

    /// The rendering extension candidates are judged at.
    pub closed spec fn spec_evaluation_extension(self) -> Float64 {
        self.evaluation_extension
    }

    /// The maximum number of iterations.
    pub closed spec fn spec_maximum_iterations(self) -> u16 {
        self.maximum_iterations
    }

    /// The fractal searched in.
    pub closed spec fn spec_fractal_config(self) -> FractalConfig {
        self.fractal_config
    }

    /// Everything but the fractal configuration is the same in `self` and `other`.
    pub open spec fn same_search(self, other: Self) -> bool {
        &&& self.spec_center_point() == other.spec_center_point()
        &&& self.spec_extension_min() == other.spec_extension_min()
        &&& self.spec_extension() == other.spec_extension()
        &&& self.spec_evaluation_extension() == other.spec_evaluation_extension()
        &&& self.spec_maximum_iterations() == other.spec_maximum_iterations()
    }

}

impl Default for FocalSystemInterface {
    /// The Mandelbrot set (exponent 2), center 0, search radii 0 and 1.5,
    /// evaluation extension 1.5, 1000 iterations.
    fn default() -> (r: Self)
        ensures
            r.spec_center_point().real.0 == 0,
            r.spec_center_point().imag.0 == 0,
            r.spec_extension_min().0 == 0,
            r.spec_extension().0 == DEFAULT_SEARCH_EXTENSION_BITS,
            r.spec_evaluation_extension().0 == DEFAULT_SEARCH_EXTENSION_BITS,
            r.spec_maximum_iterations() == 1000,
            r.spec_fractal_config().fractal_type == FractalType::Mandelbrot,
            r.spec_fractal_config().exponent == 2,
            r.spec_fractal_config().seed_real.0 == 0,
            r.spec_fractal_config().seed_imag.0 == 0,
    {
        FocalSystemInterface {
            center_point: PseudoComplex::new(Float64::zero(), Float64::zero()),
            extension_min: Float64::zero(),
            extension: Float64(DEFAULT_SEARCH_EXTENSION_BITS),
            evaluation_extension: Float64(DEFAULT_SEARCH_EXTENSION_BITS),
            maximum_iterations: 1000,
            fractal_config: FractalConfig::default(),
        }
    }
}

impl FocalSystemInterface {

    /// Sets the fractal type to search in.
    pub fn set_fractal_type(&mut self, fractal_type: FractalType)
        ensures
            final(self).spec_fractal_config() == (FractalConfig {
                fractal_type,
                ..old(self).spec_fractal_config()
            }),
            final(self).same_search(*old(self)),
    {
        proof {
            use_type_invariant(&*self);
        }
        self.fractal_config.fractal_type = fractal_type;
    }

    /// Sets the iteration exponent. Should be >= 2; this is checked where
    /// users set it (the Python binding and the animation key frames).
    pub fn set_fractal_exponent(&mut self, exponent: u32)
        ensures
            final(self).spec_fractal_config() == (FractalConfig {
                exponent,
                ..old(self).spec_fractal_config()
            }),
            final(self).same_search(*old(self)),
    {
        proof {
            use_type_invariant(&*self);
        }
        self.fractal_config.exponent = exponent;
    }

    /// Sets the Julia seed value. Only relevant for the Julia set.
    pub fn set_fractal_seed_value(&mut self, real_part: Float64, imag_part: Float64)
        ensures
            final(self).spec_fractal_config() == (FractalConfig {
                seed_real: real_part,
                seed_imag: imag_part,
                ..old(self).spec_fractal_config()
            }),
            final(self).same_search(*old(self)),
    {
        proof {
            use_type_invariant(&*self);
        }
        self.fractal_config.seed_real = real_part;
        self.fractal_config.seed_imag = imag_part;
    }

    /// Sets the maximum number of iterations.
    pub fn set_maximum_iterations(&mut self, maximum_iterations: u16)
        ensures
            final(self).spec_maximum_iterations() == maximum_iterations,
            final(self).spec_fractal_config() == old(self).spec_fractal_config(),
            final(self).spec_center_point() == old(self).spec_center_point(),
            final(self).spec_extension_min() == old(self).spec_extension_min(),
            final(self).spec_extension() == old(self).spec_extension(),
            final(self).spec_evaluation_extension() == old(self).spec_evaluation_extension(),
    {
        proof {
            use_type_invariant(&*self);
        }
        self.maximum_iterations = maximum_iterations;
    }

    /// Sets the center of the search region.
    pub fn set_center_point(&mut self, real_part: Float64, imag_part: Float64)
        ensures
            final(self).spec_center_point() == (PseudoComplex { real: real_part, imag: imag_part }),
            final(self).spec_fractal_config() == old(self).spec_fractal_config(),
            final(self).spec_maximum_iterations() == old(self).spec_maximum_iterations(),
            final(self).spec_extension_min() == old(self).spec_extension_min(),
            final(self).spec_extension() == old(self).spec_extension(),
            final(self).spec_evaluation_extension() == old(self).spec_evaluation_extension(),
    {
        proof {
            use_type_invariant(&*self);
        }
        self.center_point = PseudoComplex::new(real_part, imag_part);
    }

    /// Sets the outer search radius. It must stay strictly greater than the
    /// inner radius; otherwise an `Err` is returned and nothing changes.
    pub fn set_extension(&mut self, extension: Float64) -> (r: Result<(), SearchRadiusError>)
        ensures
            r is Ok <==> valid_search_radii(old(self).spec_extension_min(), extension),
            r matches Err(e) ==> e.extension_min == old(self).spec_extension_min()
                && e.extension == extension,
            r is Ok ==> final(self).spec_extension() == extension,
            r is Err ==> final(self).spec_extension() == old(self).spec_extension(),
            final(self).spec_extension_min() == old(self).spec_extension_min(),
            final(self).spec_fractal_config() == old(self).spec_fractal_config(),
            final(self).spec_maximum_iterations() == old(self).spec_maximum_iterations(),
            final(self).spec_center_point() == old(self).spec_center_point(),
            final(self).spec_evaluation_extension() == old(self).spec_evaluation_extension(),
    {
        proof {
            use_type_invariant(&*self);
        }
        validate_search_radii(self.extension_min, extension)?;
        self.extension = extension;
        Ok(())
    }

    /// Sets the inner search radius. It must satisfy
    /// `0 <= extension_min < extension`; otherwise an `Err` is returned and
    /// nothing changes.
    pub fn set_extension_min(&mut self, min: Float64) -> (r: Result<(), SearchRadiusError>)
        ensures
            r is Ok <==> valid_search_radii(min, old(self).spec_extension()),
            r matches Err(e) ==> e.extension_min == min && e.extension == old(self).spec_extension(),
            r is Ok ==> final(self).spec_extension_min() == min,
            r is Err ==> final(self).spec_extension_min() == old(self).spec_extension_min(),
            final(self).spec_extension() == old(self).spec_extension(),
            final(self).spec_fractal_config() == old(self).spec_fractal_config(),
            final(self).spec_maximum_iterations() == old(self).spec_maximum_iterations(),
            final(self).spec_center_point() == old(self).spec_center_point(),
            final(self).spec_evaluation_extension() == old(self).spec_evaluation_extension(),
    {
        proof {
            use_type_invariant(&*self);
        }
        validate_search_radii(min, self.extension)?;
        self.extension_min = min;
        Ok(())
    }

    /// Sets the rendering extension at which candidates are judged. A smaller
    /// value means a deeper zoom; it is independent of the search radii.
    pub fn set_evaluation_extension(&mut self, evaluation_extension: Float64)
        ensures
            final(self).spec_evaluation_extension() == evaluation_extension,
            final(self).spec_extension_min() == old(self).spec_extension_min(),
            final(self).spec_extension() == old(self).spec_extension(),
            final(self).spec_fractal_config() == old(self).spec_fractal_config(),
            final(self).spec_maximum_iterations() == old(self).spec_maximum_iterations(),
            final(self).spec_center_point() == old(self).spec_center_point(),
    {
        proof {
            use_type_invariant(&*self);
        }
        self.evaluation_extension = evaluation_extension;
    }

    /// The center of the search region.
    pub fn get_center_point(&self) -> (r: PseudoComplex)
        ensures
            r == self.spec_center_point(),
    {
        self.center_point
    }

    /// The search radii `(extension_min, extension)`; they always satisfy
    /// `0 <= extension_min < extension`.
    pub fn get_search_radii(&self) -> (r: (Float64, Float64))
        ensures
            r.0 == self.spec_extension_min(),
            r.1 == self.spec_extension(),
            valid_search_radii(r.0, r.1),
    {
        proof {
            use_type_invariant(self);
        }
        (self.extension_min, self.extension)
    }

    /// The rendering extension candidates are judged at.
    pub fn get_evaluation_extension(&self) -> (r: Float64)
        ensures
            r == self.spec_evaluation_extension(),
    {
        self.evaluation_extension
    }

    /// The maximum number of iterations.
    pub fn get_maximum_iterations(&self) -> (r: u16)
        ensures
            r == self.spec_maximum_iterations(),
    {
        self.maximum_iterations
    }

    /// The fractal searched in.
    pub fn get_fractal_config(&self) -> (r: FractalConfig)
        ensures
            r == self.spec_fractal_config(),
    {
        self.fractal_config
    }
}

} // verus!
