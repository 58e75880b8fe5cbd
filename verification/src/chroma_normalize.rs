//! Normalizing a chroma row to length one.
//!
//! The length of a row is its Euclidean norm: the square root of the sum of
//! the squares of its entries. A row is normalized by dividing every entry by
//! the norm. A row whose norm is below a limit is taken for silence and
//! replaced by zeros, so that noise is not blown up. The square root itself
//! is a function of the caller.

use vstd::prelude::*;
use vstd::std_specs::cmp::PartialOrdSpec;
use vstd::std_specs::ops::AddSpec;
use vstd::std_specs::ops::DivSpec;
use vstd::std_specs::ops::MulSpec;
use std::cmp::Ordering;
use std::ops::Add;
use std::ops::Div;
use std::ops::Mul;
use crate::arithmetic::adds_freely;
use crate::arithmetic::divides_freely;
use crate::arithmetic::multiplies_freely;
use crate::quantizer::is_less;

verus! {

/// Whether `a` is greater than `b` in the order of `T`.
pub open spec fn is_greater<T: PartialOrd>(a: T, b: T) -> bool {
    a.partial_cmp_spec(&b) == Some(Ordering::Greater)
}

/// The sum of the squares of the first `n` entries of `vector`, added one
/// after the other to `zero`.
pub open spec fn sum_of_squares<T: Add<Output = T> + Mul<Output = T>>(
    vector: [T; 12],
    zero: T,
    n: int,
) -> T
    decreases n,
{
    if n <= 0 {
        zero
    } else {
        sum_of_squares(vector, zero, n - 1).add_spec(vector[n - 1].mul_spec(vector[n - 1]))
    }
}

/// Whether `norm` is a norm that `euclidean_norm` may give for `vector`: for
/// a sum of squares above `zero`, what `sqrt` makes of it, and `zero`
/// otherwise. In an arithmetic that goes by its specification, the sum of
/// squares is that of the entries of `vector`.
pub open spec fn is_norm<T: Add<Output = T> + Mul<Output = T> + PartialOrd, S: Fn(T) -> T>(
    sqrt: S,
    vector: [T; 12],
    zero: T,
    norm: T,
) -> bool {
    exists|squares: T|
        {
            &&& #[trigger] is_root(sqrt, squares, zero, norm)
            &&& T::obeys_add_spec() && T::obeys_mul_spec() ==> squares == sum_of_squares(
                vector,
                zero,
                12,
            )
        }
}

/// Whether `norm` is the norm for the sum of squares `squares`, in an order
/// that goes by its specification: what `sqrt` makes of a sum above `zero`,
/// and `zero` otherwise.
pub open spec fn is_root<T: PartialOrd, S: Fn(T) -> T>(
    sqrt: S,
    squares: T,
    zero: T,
    norm: T,
) -> bool {
    T::obeys_partial_cmp_spec() ==> if is_greater(squares, zero) {
        call_ensures(sqrt, (squares,), norm)
    } else {
        norm == zero
    }
}

/// Whether `normalized` is `vector` normalized by `norm`, in an arithmetic
/// and an order that go by their specification: all zeros for a norm below
/// `limit`, and every entry divided by the norm otherwise.
pub open spec fn is_normalized<T: Div<Output = T> + PartialOrd>(
    vector: [T; 12],
    zero: T,
    limit: T,
    norm: T,
    normalized: [T; 12],
) -> bool {
    T::obeys_partial_cmp_spec() ==> if is_less(norm, limit) {
        forall|i: int| 0 <= i < 12 ==> #[trigger] normalized[i] == zero
    } else {
        T::obeys_div_spec() ==> forall|i: int|
            0 <= i < 12 ==> #[trigger] normalized[i] == vector[i].div_spec(norm)
    }
}

/// The Euclidean norm of `vector`, with `sqrt` for the square root and `zero`
/// for the number 0.
pub fn euclidean_norm<T: Add<Output = T> + Mul<Output = T> + PartialOrd + Copy, S: Fn(T) -> T>(
    vector: &[T; 12],
    zero: T,
    sqrt: &S,
) -> (norm: T)
    requires
        adds_freely::<T>(),
        multiplies_freely::<T>(),
        forall|squares: T| #[trigger] call_requires(*sqrt, (squares,)),
    ensures
        is_norm(*sqrt, *vector, zero, norm),
{
    let mut squares: T = zero;
    let mut idx: usize = 0;
    while idx < 12
        invariant
            0 <= idx <= 12,
            adds_freely::<T>(),
            multiplies_freely::<T>(),
            T::obeys_add_spec() && T::obeys_mul_spec() ==> squares == sum_of_squares(
                *vector,
                zero,
                idx as int,
            ),
        decreases 12 - idx,
    {
        let value: T = vector[idx];
        squares = squares + value * value;
        idx += 1;
    }

    let norm = if squares > zero {
        sqrt(squares)
    } else {
        zero
    };
    assert(is_root(*sqrt, squares, zero, norm));
    norm
}

/// Normalizes `vector`: scales it to the length one, or replaces it by zeros
/// if its norm is below `limit`, with `sqrt` for the square root and `zero`
/// for the number 0.
pub fn normalize_vector<
    T: Add<Output = T> + Mul<Output = T> + Div<Output = T> + PartialOrd + Copy,
    S: Fn(T) -> T,
>(vector: [T; 12], zero: T, limit: T, sqrt: &S) -> (normalized: [T; 12])
    requires
        adds_freely::<T>(),
        multiplies_freely::<T>(),
        divides_freely::<T>(),
        forall|squares: T| #[trigger] call_requires(*sqrt, (squares,)),
    ensures
        exists|norm: T|
            {
                &&& #[trigger] is_norm(*sqrt, vector, zero, norm)
                &&& is_normalized(vector, zero, limit, norm, normalized)
            },
{
    let norm = euclidean_norm(&vector, zero, sqrt);
    if norm < limit {
        let zeros: [T; 12] = [zero;12];
        assert(is_normalized(vector, zero, limit, norm, zeros));
        zeros
    } else {
        let mut scaled: [T; 12] = vector;
        let mut idx: usize = 0;
        while idx < 12
            invariant
                0 <= idx <= 12,
                divides_freely::<T>(),
                T::obeys_div_spec() ==> forall|i: int|
                    0 <= i < idx ==> #[trigger] scaled[i] == vector[i].div_spec(norm),
                forall|i: int| idx <= i < 12 ==> #[trigger] scaled[i] == vector[i],
            decreases 12 - idx,
        {
            scaled[idx] = scaled[idx] / norm;
            idx += 1;
        }

        assert(is_normalized(vector, zero, limit, norm, scaled));
        scaled
    }
}

} // verus!
