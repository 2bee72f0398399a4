//! The time stamp of a key frame, totally ordered as `f32::total_cmp` orders
//! its values (so NaN times sort deterministically too).

use vstd::prelude::*;
use crate::float_bits::{Float32, total_key32};

verus! {

/// The time of a key frame: an `f32` held by its bit pattern, compared by the
/// IEEE-754 total order.
#[derive(Clone, Copy, Debug)]
pub struct KeyTime(pub Float32);

impl KeyTime {
    /// The place of this time in the total order.
    pub open spec fn key(self) -> int {
        total_key32(self.0.0)
    }

    /// The time `0.0`.
    pub fn zero() -> (r: KeyTime)
        ensures
            r.0.0 == 0,
            r.key() == 0,
    {
        KeyTime(Float32::zero())
    }

    /// True when `self` comes strictly before `other` in the total order.
    pub fn is_before(&self, other: &KeyTime) -> (r: bool)
        ensures
            r == (self.key() < other.key()),
    {
        self.0.total_key() < other.0.total_key()
    }

    /// True when both times are the same value (the same bit pattern).
    pub fn is_same_time(&self, other: &KeyTime) -> (r: bool)
        ensures
            r == (self.key() == other.key()),
            r == (self.0.0 == other.0.0),
    {
        proof {
            crate::float_bits::lemma_total_key32_injective(self.0.0, other.0.0);
        }
        self.0.0 == other.0.0
    }
}

impl PartialEq for KeyTime {
    /// Two times are equal when they hold the same value (bit pattern), that
    /// is, when they take the same place in the total order.
    fn eq(&self, other: &Self) -> (r: bool) {
        self.0.0 == other.0.0
    }
}

impl vstd::std_specs::cmp::PartialEqSpecImpl for KeyTime {
    open spec fn obeys_eq_spec() -> bool {
        true
    }

    open spec fn eq_spec(&self, other: &KeyTime) -> bool {
        self.0.0 == other.0.0
    }
}

impl Eq for KeyTime {

}

} // verus!
