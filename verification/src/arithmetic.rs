//! What the pipeline asks of the numbers that it computes with.
//!
//! The stages that add, subtract and multiply work on any type with these
//! operations. They ask that the operations can be applied to any values, and
//! state their results in terms of the operations. For an arithmetic that is
//! exact, the results are the sums that they stand for.

use vstd::prelude::*;
use vstd::std_specs::ops::AddSpec;
use vstd::std_specs::ops::DivSpec;
use vstd::std_specs::ops::MulSpec;
use vstd::std_specs::ops::SubSpec;
use std::ops::Add;
use std::ops::Div;
use std::ops::Mul;
use std::ops::Sub;

verus! {

/// Whether any two values of `T` can be added.
pub open spec fn adds_freely<T: Add<Output = T>>() -> bool {
    forall|a: T, b: T| #[trigger] a.add_req(b)
}

/// Whether any value of `T` can be subtracted from any other.
pub open spec fn subtracts_freely<T: Sub<Output = T>>() -> bool {
    forall|a: T, b: T| #[trigger] a.sub_req(b)
}

/// Whether any two values of `T` can be multiplied.
pub open spec fn multiplies_freely<T: Mul<Output = T>>() -> bool {
    forall|a: T, b: T| #[trigger] a.mul_req(b)
}

/// Whether any value of `T` can be divided by any other.
pub open spec fn divides_freely<T: Div<Output = T>>() -> bool {
    forall|a: T, b: T| #[trigger] a.div_req(b)
}

/// Whether the addition of `T` is exact: `value` gives every value of `T` a
/// number such that sums go to sums and `zero` to 0.
pub open spec fn is_additive<T: Add<Output = T>>(value: spec_fn(T) -> int, zero: T) -> bool {
    &&& T::obeys_add_spec()
    &&& value(zero) == 0
    &&& forall|a: T, b: T| value(#[trigger] a.add_spec(b)) == value(a) + value(b)
}

/// Whether the addition and subtraction of `T` are exact: `value` gives every
/// value of `T` a number such that sums go to sums, differences to
/// differences, and `zero` to 0.
pub open spec fn is_exact<T: Add<Output = T> + Sub<Output = T>>(
    value: spec_fn(T) -> int,
    zero: T,
) -> bool {
    &&& is_additive(value, zero)
    &&& T::obeys_sub_spec()
    &&& forall|a: T, b: T| value(#[trigger] a.sub_spec(b)) == value(a) - value(b)
}

} // verus!
