//! Quantizing the answer of a filter to one of four levels.

use vstd::prelude::*;
use vstd::std_specs::cmp::PartialOrdSpec;
use std::cmp::Ordering;

verus! {

/// Whether `a` is less than `b` in the order of `T`.
pub open spec fn is_less<T: PartialOrd>(a: T, b: T) -> bool {
    a.partial_cmp_spec(&b) == Some(Ordering::Less)
}

/// The level of `value` for the thresholds `t0`, `t1` and `t2`: 0 below `t0`,
/// 1 from `t0` on, 2 from `t1` on and 3 from `t2` on. A value that is not less
/// than `t1` is never at a level below 2, whatever `t0` is.
pub open spec fn level_of<T: PartialOrd>(value: T, t0: T, t1: T, t2: T) -> u8 {
    if is_less(value, t1) {
        if is_less(value, t0) {
            0
        } else {
            1
        }
    } else if is_less(value, t2) {
        2
    } else {
        3
    }
}

/// Three thresholds that part the values of an ordered type into four levels.
pub struct Quantizer<T> {
    t0: T,
    t1: T,
    t2: T,
}

impl<T: PartialOrd + Copy> Quantizer<T> {
    /// The thresholds, lowest first.
    pub closed spec fn thresholds(&self) -> (T, T, T) {
        (self.t0, self.t1, self.t2)
    }

    /// A quantizer with the thresholds `t0 < t1 < t2`.
    pub fn new(t0: T, t1: T, t2: T) -> (quantizer: Quantizer<T>)
        ensures
            quantizer.thresholds() == (t0, t1, t2),
    {
        Quantizer { t0, t1, t2 }
    }

    /// The lowest threshold.
    pub fn t0(&self) -> (t0: T)
        ensures
            t0 == self.thresholds().0,
    {
        self.t0
    }

    /// The middle threshold.
    pub fn t1(&self) -> (t1: T)
        ensures
            t1 == self.thresholds().1,
    {
        self.t1
    }

    /// The highest threshold.
    pub fn t2(&self) -> (t2: T)
        ensures
            t2 == self.thresholds().2,
    {
        self.t2
    }

    /// Whether `level` is a level that `quantize` may give for `value`: in an
    /// order that goes by its specification, the level of `value`.
    pub open spec fn is_level(&self, value: T, level: u8) -> bool {
        &&& level <= 3
        &&& T::obeys_partial_cmp_spec() ==> level == level_of(
            value,
            self.thresholds().0,
            self.thresholds().1,
            self.thresholds().2,
        )
    }

    /// The level of `value`, from 0 to 3.
    pub fn quantize(&self, value: T) -> (level: u8)
        ensures
            self.is_level(value, level),
    {
        if value < self.t1 {
            if value < self.t0 {
                0
            } else {
                1
            }
        } else {
            if value < self.t2 {
                2
            } else {
                3
            }
        }
    }
}

} // verus!
