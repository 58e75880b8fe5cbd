//! Smoothing of the chroma over time.
//!
//! A filter of as many taps as it has coefficients weighs the most recent
//! rows: every entry of its output is the sum of the entries of the last rows
//! in that column, each times the coefficient of its row, oldest row first.
//! The rows are kept in a ring of eight slots. Until there are as many rows
//! as taps there is no output; from then on every row gives one.
//!
//! The entries are of any type that can be added and multiplied. What the
//! filter computes is stated in terms of that addition and multiplication,
//! operation by operation.

use vstd::prelude::*;
use vstd::std_specs::ops::AddSpec;
use vstd::std_specs::ops::MulSpec;
use std::ops::Add;
use std::ops::Mul;
use crate::arithmetic::adds_freely;
use crate::arithmetic::multiplies_freely;

verus! {

/// The number of slots in the ring.
pub const BUFFER_LENGTH: usize = 8;

/// The weighted sum of column `col` over the first `n` rows of `window`: each
/// entry times the coefficient of its row, added one after the other to
/// `zero`.
pub open spec fn weighted_sum<T: Add<Output = T> + Mul<Output = T>>(
    window: Seq<[T; 12]>,
    coefficients: Seq<T>,
    zero: T,
    col: int,
    n: int,
) -> T
    decreases n,
{
    if n <= 0 {
        zero
    } else {
        weighted_sum(window, coefficients, zero, col, n - 1).add_spec(
            window[n - 1][col].mul_spec(coefficients[n - 1]),
        )
    }
}

/// A filter that weighs the most recent rows.
pub struct ChromaFilter<T> {
    filter_coefficients: Vec<T>,
    buffer: Vec<[T; 12]>,
    buffer_offset: usize,
    buffer_size: usize,
    zero: T,
    history: Ghost<Seq<[T; 12]>>,
}

impl<T: Add<Output = T> + Mul<Output = T> + Copy> ChromaFilter<T> {
    /// The coefficients, that of the oldest row first.
    pub closed spec fn coefficients(&self) -> Seq<T> {
        self.filter_coefficients@
    }

    /// The value that stands for nothing.
    pub closed spec fn zero(&self) -> T {
        self.zero
    }

    /// All rows that have arrived, oldest first.
    pub closed spec fn history(&self) -> Seq<[T; 12]> {
        self.history@
    }

    /// The last rows, as many as there are coefficients.
    pub open spec fn window(&self) -> Seq<[T; 12]> {
        self.history().subrange(
            self.history().len() - self.coefficients().len(),
            self.history().len() as int,
        )
    }

    /// The state invariant: the ring holds the last rows of the history, each
    /// in the slot of its number modulo the number of slots.
    pub closed spec fn wf(&self) -> bool {
        &&& 1 <= self.filter_coefficients@.len() <= BUFFER_LENGTH
        &&& self.buffer@.len() == BUFFER_LENGTH
        &&& self.buffer_offset == self.history@.len() % (BUFFER_LENGTH as nat)
        &&& self.buffer_size == if self.history@.len() + 1 < self.filter_coefficients@.len() {
            self.history@.len() + 1
        } else {
            self.filter_coefficients@.len()
        }
        &&& forall|i: int|
            0 <= i < self.history@.len() && self.history@.len() - BUFFER_LENGTH <= i
                ==> self.buffer@[i % (BUFFER_LENGTH as int)] == #[trigger] self.history@[i]
    }

    /// A filter with the coefficients `filter_coefficients`, that of the
    /// oldest row first, for entries of which `zero` stands for nothing.
    pub fn new(filter_coefficients: Vec<T>, zero: T) -> (filter: ChromaFilter<T>)
        requires
            1 <= filter_coefficients@.len() <= BUFFER_LENGTH,
        ensures
            filter.wf(),
            filter.coefficients() == filter_coefficients@,
            filter.zero() == zero,
            filter.history() == Seq::<[T; 12]>::empty(),
    {
        let mut buffer: Vec<[T; 12]> = Vec::new();
        let mut i: usize = 0;
        while i < BUFFER_LENGTH
            invariant
                0 <= i <= BUFFER_LENGTH,
                buffer@.len() == i,
            decreases BUFFER_LENGTH - i,
        {
            buffer.push([zero;12]);
            i += 1;
        }
        ChromaFilter {
            filter_coefficients,
            buffer,
            buffer_offset: 0,
            buffer_size: 1,
            zero,
            history: Ghost(Seq::empty()),
        }
    }

    /// Row `j` of the window, when `offset` is the slot of its first row.
    fn window_row(&self, offset: usize, j: usize) -> (row: &[T; 12])
        requires
            self.wf(),
            self.history().len() >= self.coefficients().len(),
            offset == (self.history().len() - self.coefficients().len()) % (BUFFER_LENGTH as int),
            j < self.coefficients().len(),
        ensures
            *row == self.window()[j as int],
    {
        let slot: usize = (offset + j) % BUFFER_LENGTH;
        proof {
            let at = self.history@.len() - self.filter_coefficients@.len() + j;
            assert(slot == at % 8);
            assert(self.buffer@[at % 8] == self.history@[at]);
        }
        &self.buffer[slot]
    }

    /// Takes one more row. Returns the weighted sums of the last rows as soon
    /// as there are as many rows as coefficients, and nothing before.
    pub fn handle_features(&mut self, features: [T; 12]) -> (filtered: Option<[T; 12]>)
        requires
            old(self).wf(),
            adds_freely::<T>(),
            multiplies_freely::<T>(),
        ensures
            final(self).wf(),
            final(self).coefficients() == old(self).coefficients(),
            final(self).zero() == old(self).zero(),
            final(self).history() == old(self).history().push(features),
            filtered is Some <==> final(self).history().len() >= final(self).coefficients().len(),
            filtered is Some && T::obeys_add_spec() && T::obeys_mul_spec() ==> forall|col: int|
                0 <= col < 12 ==> #[trigger] filtered->0[col] == weighted_sum(
                    final(self).window(),
                    final(self).coefficients(),
                    final(self).zero(),
                    col,
                    final(self).coefficients().len() as int,
                ),
    {
        let ghost before = self.history@;
        let ghost count = before.len() as int;
        self.buffer[self.buffer_offset] = features;
        self.buffer_offset = (self.buffer_offset + 1) % BUFFER_LENGTH;
        proof {
            self.history@ = before.push(features);
            assert forall|i: int|
                0 <= i < self.history@.len() && self.history@.len() - BUFFER_LENGTH
                    <= i implies self.buffer@[i % (BUFFER_LENGTH as int)]
                == #[trigger] self.history@[i] by {
                if i < count {
                    assert(before[i] == self.history@[i]);
                    assert(i % 8 != count % 8);
                }
            }
        }
        if self.buffer_size >= self.filter_coefficients.len() {
            let length: usize = self.filter_coefficients.len();
            let offset: usize = (self.buffer_offset + BUFFER_LENGTH - length) % BUFFER_LENGTH;
            let ghost window = self.window();
            let mut result: [T; 12] = [self.zero;12];

            let mut i: usize = 0;
            while i < 12
                invariant
                    self.wf(),
                    adds_freely::<T>(),
                    multiplies_freely::<T>(),
                    length == self.coefficients().len(),
                    length <= self.history().len(),
                    offset == (self.history().len() - length) % (BUFFER_LENGTH as int),
                    window == self.window(),
                    0 <= i <= 12,
                    T::obeys_add_spec() && T::obeys_mul_spec() ==> forall|col: int|
                        0 <= col < i ==> #[trigger] result[col] == weighted_sum(
                            window,
                            self.coefficients(),
                            self.zero(),
                            col,
                            length as int,
                        ),
                    forall|col: int| i <= col < 12 ==> #[trigger] result[col] == self.zero(),
                decreases 12 - i,
            {
                let mut j: usize = 0;
                while j < length
                    invariant
                        self.wf(),
                        adds_freely::<T>(),
                        multiplies_freely::<T>(),
                        length == self.coefficients().len(),
                        length <= self.history().len(),
                        offset == (self.history().len() - length) % (BUFFER_LENGTH as int),
                        window == self.window(),
                        0 <= i < 12,
                        0 <= j <= length,
                        T::obeys_add_spec() && T::obeys_mul_spec() ==> result[i as int]
                            == weighted_sum(
                            window,
                            self.coefficients(),
                            self.zero(),
                            i as int,
                            j as int,
                        ),
                        T::obeys_add_spec() && T::obeys_mul_spec() ==> forall|col: int|
                            0 <= col < i ==> #[trigger] result[col] == weighted_sum(
                                window,
                                self.coefficients(),
                                self.zero(),
                                col,
                                length as int,
                            ),
                        forall|col: int| i < col < 12 ==> #[trigger] result[col] == self.zero(),
                    decreases length - j,
                {
                    let row = self.window_row(offset, j);
                    result[i] = result[i] + row[i] * self.filter_coefficients[j];
                    j += 1;
                }
                i += 1;
            }

            Some(result)
        } else {
            self.buffer_size += 1;
            None
        }
    }
}

} // verus!
