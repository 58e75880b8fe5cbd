//! Two slices read as one sequence.

use vstd::prelude::*;
use vstd::slice::slice_subrange;
use vstd::slice::slice_to_vec;

verus! {

/// The concatenation of two borrowed slices, without copying either.
pub struct CombinedBuffer<'a, 'b, T> {
    a: &'a [T],
    b: &'b [T],
}

impl<'a, 'b, T> View for CombinedBuffer<'a, 'b, T> {
    type V = Seq<T>;

    closed spec fn view(&self) -> Seq<T> {
        self.a@ + self.b@
    }
}

impl<'a, 'b, T> CombinedBuffer<'a, 'b, T> {
    #[verifier::type_invariant]
    spec fn fits(self) -> bool {
        self.a@.len() + self.b@.len() <= usize::MAX
    }
}

impl<'a, 'b, T: Copy> CombinedBuffer<'a, 'b, T> {
    /// The sequence `a` followed by `b`.
    pub fn new(a: &'a [T], b: &'b [T]) -> (combined: CombinedBuffer<'a, 'b, T>)
        requires
            a@.len() + b@.len() <= usize::MAX,
        ensures
            combined@ == a@ + b@,
    {
        CombinedBuffer { a, b }
    }

    /// The number of elements in both slices together.
    pub fn len(&self) -> (len: usize)
        ensures
            len == self@.len(),
    {
        proof {
            use_type_invariant(self);
        }
        self.a.len() + self.b.len()
    }

    /// A copy of the `size` elements from `start_idx` on.
    pub fn read(&self, start_idx: usize, size: usize) -> (copy: Vec<T>)
        requires
            start_idx + size <= self@.len(),
        ensures
            copy@ == self@.subrange(start_idx as int, start_idx + size),
    {
        proof {
            use_type_invariant(self);
        }
        if start_idx + size < self.a.len() {
            let copy = slice_to_vec(slice_subrange(self.a, start_idx, start_idx + size));
            assert(copy@ =~= self@.subrange(start_idx as int, start_idx + size));
            return copy;
        }
        if start_idx >= self.a.len() {
            let b_start_idx: usize = start_idx - self.a.len();
            let copy = slice_to_vec(slice_subrange(self.b, b_start_idx, b_start_idx + size));
            assert(copy@ =~= self@.subrange(start_idx as int, start_idx + size));
            return copy;
        }
        let mut from_a = slice_to_vec(slice_subrange(self.a, start_idx, self.a.len()));
        let remaining_len: usize = size - from_a.len();
        let mut i: usize = 0;
        while i < remaining_len
            invariant
                start_idx < self.a@.len(),
                start_idx + size <= self.a@.len() + self.b@.len(),
                remaining_len == start_idx + size - self.a@.len(),
                0 <= i <= remaining_len,
                from_a@ == self.a@.subrange(start_idx as int, self.a@.len() as int)
                    + self.b@.subrange(0, i as int),
            decreases remaining_len - i,
        {
            from_a.push(self.b[i]);
            assert(from_a@ =~= self.a@.subrange(start_idx as int, self.a@.len() as int)
                + self.b@.subrange(0, i + 1));
            i += 1;
        }
        assert(from_a@ =~= self@.subrange(start_idx as int, start_idx + size));
        from_a
    }
}

} // verus!
