//! A rolling integral image of rows of twelve columns.
//!
//! The integral image holds, for every cell, the sum of all cells in the rows
//! up to its row and the columns up to its column. The sum over any rectangle
//! then comes from four of its entries. A rolling image keeps only the most
//! recent rows, in a ring, and numbers the rows by arrival.
//!
//! The cells are of any type that can be added and subtracted. What the image
//! computes is stated in terms of that addition and subtraction, operation by
//! operation; where they are exact, the areas are the sums of the cells.

use vstd::prelude::*;
use vstd::std_specs::ops::AddSpec;
use vstd::std_specs::ops::SubSpec;
use std::ops::Add;
use std::ops::Sub;
use crate::arithmetic::adds_freely;
use crate::arithmetic::is_exact;
use crate::arithmetic::subtracts_freely;

verus! {

/// The number of columns of the image.
pub const COLUMNS: usize = 12;

/// The sum of the first `n` cells of `row`, added one after the other to
/// `zero`.
pub open spec fn running_sum<T: Add<Output = T>>(row: [T; 12], zero: T, n: int) -> T
    decreases n,
{
    if n <= 0 {
        zero
    } else {
        running_sum(row, zero, n - 1).add_spec(row[n - 1])
    }
}

/// Entry `col` of the integral row of `row`: the running sum of the row up to
/// that column, on top of the entry of the integral row before, if there is
/// one.
pub open spec fn integral_entry<T: Add<Output = T>>(
    row: [T; 12],
    before: Option<[T; 12]>,
    zero: T,
    col: int,
) -> T {
    match before {
        None => running_sum(row, zero, col + 1),
        Some(last) => running_sum(row, zero, col + 1).add_spec(last[col]),
    }
}

/// The cell in row `r` and column `c`.
pub open spec fn cell<T>(rows: Seq<[T; 12]>, r: int, c: int) -> T {
    rows[r][c]
}

/// Whether `integral` holds the integral rows of `rows`.
pub open spec fn is_integral<T: Add<Output = T>>(
    rows: Seq<[T; 12]>,
    integral: Seq<[T; 12]>,
    zero: T,
) -> bool {
    &&& rows.len() == integral.len()
    &&& forall|r: int, c: int|
        0 <= r < rows.len() && 0 <= c < COLUMNS ==> #[trigger] cell(integral, r, c)
            == integral_entry(
            rows[r],
            if r == 0 {
                None
            } else {
                Some(integral[r - 1])
            },
            zero,
            c,
        )
}

/// The area of the rows from `row1` up to `row2` and the columns from `col1`
/// up to `col2`, from the four corners of the rectangle in the integral
/// image. A corner in front of the first row or column counts nothing and is
/// left out.
pub open spec fn area_spec<T: Add<Output = T> + Sub<Output = T>>(
    integral: Seq<[T; 12]>,
    zero: T,
    row1: int,
    col1: int,
    row2: int,
    col2: int,
) -> T {
    if row1 == row2 || col1 == col2 {
        zero
    } else if row1 == 0 {
        let row = integral[row2 - 1];
        if col1 == 0 {
            row[col2 - 1]
        } else {
            row[col2 - 1].sub_spec(row[col1 - 1])
        }
    } else {
        let upper = integral[row1 - 1];
        let lower = integral[row2 - 1];
        if col1 == 0 {
            lower[col2 - 1].sub_spec(upper[col2 - 1])
        } else {
            lower[col2 - 1].sub_spec(upper[col2 - 1]).sub_spec(lower[col1 - 1]).add_spec(
                upper[col1 - 1],
            )
        }
    }
}

/// The sum of the values of the cells of `row` in the columns from `col1` up
/// to `col2`.
pub open spec fn row_sum<T>(row: [T; 12], value: spec_fn(T) -> int, col1: int, col2: int) -> int
    decreases col2 - col1,
{
    if col2 <= col1 {
        0
    } else {
        row_sum(row, value, col1, col2 - 1) + value(row[col2 - 1])
    }
}

/// The sum of the values of the cells in the rows from `row1` up to `row2`
/// and the columns from `col1` up to `col2`.
pub open spec fn cell_sum<T>(
    rows: Seq<[T; 12]>,
    value: spec_fn(T) -> int,
    row1: int,
    col1: int,
    row2: int,
    col2: int,
) -> int
    decreases row2 - row1,
{
    if row2 <= row1 {
        0
    } else {
        cell_sum(rows, value, row1, col1, row2 - 1, col2) + row_sum(
            rows[row2 - 1],
            value,
            col1,
            col2,
        )
    }
}

/// A row sum from one column to another is the difference of the sums from
/// the first column on.
pub proof fn lemma_row_sum_from_start<T>(
    row: [T; 12],
    value: spec_fn(T) -> int,
    col1: int,
    col2: int,
)
    requires
        0 <= col1 <= col2,
    ensures
        row_sum(row, value, col1, col2) == row_sum(row, value, 0, col2) - row_sum(
            row,
            value,
            0,
            col1,
        ),
    decreases col2 - col1,
{
    if col2 > col1 {
        lemma_row_sum_from_start(row, value, col1, col2 - 1);
    }
}

/// A sum of cells from one row to another is the difference of the sums from
/// the first row on, and likewise for the columns.
pub proof fn lemma_cell_sum_from_start<T>(
    rows: Seq<[T; 12]>,
    value: spec_fn(T) -> int,
    row1: int,
    col1: int,
    row2: int,
    col2: int,
)
    requires
        0 <= row1 <= row2,
        0 <= col1 <= col2,
    ensures
        cell_sum(rows, value, row1, col1, row2, col2) == cell_sum(rows, value, 0, 0, row2, col2)
            - cell_sum(rows, value, 0, 0, row1, col2) - cell_sum(rows, value, 0, 0, row2, col1)
            + cell_sum(rows, value, 0, 0, row1, col1),
    decreases row2,
{
    if row2 > row1 {
        lemma_cell_sum_from_start(rows, value, row1, col1, row2 - 1, col2);
        lemma_row_sum_from_start(rows[row2 - 1], value, col1, col2);
    } else {
        lemma_cell_sum_columns(rows, value, row1, col1, col2);
    }
}

/// The sum over the columns from `col1` up to `col2` of the first rows is the
/// difference of the sums from the first column on.
proof fn lemma_cell_sum_columns<T>(
    rows: Seq<[T; 12]>,
    value: spec_fn(T) -> int,
    row: int,
    col1: int,
    col2: int,
)
    requires
        0 <= row,
        0 <= col1 <= col2,
    ensures
        cell_sum(rows, value, row, col1, row, col2) == 0,
        cell_sum(rows, value, 0, col1, row, col2) == cell_sum(rows, value, 0, 0, row, col2)
            - cell_sum(rows, value, 0, 0, row, col1),
    decreases row,
{
    if row > 0 {
        lemma_cell_sum_columns(rows, value, row - 1, col1, col2);
        lemma_row_sum_from_start(rows[row - 1], value, col1, col2);
    }
}

/// Where the arithmetic is exact, a running sum has the value of the sum of
/// the cells.
pub proof fn lemma_running_sum_value<T: Add<Output = T> + Sub<Output = T>>(
    row: [T; 12],
    zero: T,
    value: spec_fn(T) -> int,
    n: int,
)
    requires
        is_exact(value, zero),
        0 <= n,
    ensures
        value(running_sum(row, zero, n)) == row_sum(row, value, 0, n),
    decreases n,
{
    if n > 0 {
        lemma_running_sum_value(row, zero, value, n - 1);
    }
}

/// Where the arithmetic is exact, every entry of an integral image has the
/// value of the sum of all cells up to its row and column.
pub proof fn lemma_integral_value<T: Add<Output = T> + Sub<Output = T>>(
    rows: Seq<[T; 12]>,
    integral: Seq<[T; 12]>,
    zero: T,
    value: spec_fn(T) -> int,
    r: int,
    c: int,
)
    requires
        is_exact(value, zero),
        is_integral(rows, integral, zero),
        0 <= r < rows.len(),
        0 <= c < COLUMNS,
    ensures
        value(integral[r][c]) == cell_sum(rows, value, 0, 0, r + 1, c + 1),
    decreases r,
{
    lemma_running_sum_value(rows[r], zero, value, c + 1);
    assert(cell(integral, r, c) == integral_entry(
        rows[r],
        if r == 0 {
            None
        } else {
            Some(integral[r - 1])
        },
        zero,
        c,
    ));
    let sum = running_sum(rows[r], zero, c + 1);
    assert(cell_sum(rows, value, 0, 0, r + 1, c + 1) == cell_sum(rows, value, 0, 0, r, c + 1)
        + row_sum(rows[r], value, 0, c + 1));
    if r > 0 {
        lemma_integral_value(rows, integral, zero, value, r - 1, c);
        assert(integral[r][c] == sum.add_spec(integral[r - 1][c]));
    } else {
        assert(integral[r][c] == sum);
        assert(cell_sum(rows, value, 0, 0, 0, c + 1) == 0);
    }
}

/// Where the arithmetic is exact, the area of a rectangle is the sum of its
/// cells.
pub proof fn lemma_area_is_sum<T: Add<Output = T> + Sub<Output = T>>(
    rows: Seq<[T; 12]>,
    integral: Seq<[T; 12]>,
    zero: T,
    value: spec_fn(T) -> int,
    row1: int,
    col1: int,
    row2: int,
    col2: int,
)
    requires
        is_exact(value, zero),
        is_integral(rows, integral, zero),
        0 <= row1 <= row2 <= rows.len(),
        0 <= col1 <= col2 <= COLUMNS,
    ensures
        value(area_spec(integral, zero, row1, col1, row2, col2)) == cell_sum(
            rows,
            value,
            row1,
            col1,
            row2,
            col2,
        ),
{
    lemma_cell_sum_from_start(rows, value, row1, col1, row2, col2);
    if row1 != row2 && col1 != col2 {
        lemma_integral_value(rows, integral, zero, value, row2 - 1, col2 - 1);
        if col1 > 0 {
            lemma_integral_value(rows, integral, zero, value, row2 - 1, col1 - 1);
        } else {
            lemma_cell_sum_empty_columns(rows, value, 0, 0, row2);
            lemma_cell_sum_empty_columns(rows, value, 0, 0, row1);
        }
        if row1 > 0 {
            lemma_integral_value(rows, integral, zero, value, row1 - 1, col2 - 1);
            if col1 > 0 {
                lemma_integral_value(rows, integral, zero, value, row1 - 1, col1 - 1);
            }
        }
    } else if col1 == col2 {
        lemma_cell_sum_empty_columns(rows, value, row1, col1, row2);
    }
}

/// A rectangle without columns holds nothing.
proof fn lemma_cell_sum_empty_columns<T>(
    rows: Seq<[T; 12]>,
    value: spec_fn(T) -> int,
    row1: int,
    col: int,
    row2: int,
)
    requires
        row1 <= row2,
    ensures
        cell_sum(rows, value, row1, col, row2, col) == 0,
    decreases row2 - row1,
{
    if row2 > row1 {
        lemma_cell_sum_empty_columns(rows, value, row1, col, row2 - 1);
    }
}

/// Whether `longer` starts with the rows of `rows`.
pub open spec fn starts_with<T>(longer: Seq<[T; 12]>, rows: Seq<[T; 12]>) -> bool {
    &&& rows.len() <= longer.len()
    &&& forall|i: int| 0 <= i < rows.len() ==> #[trigger] longer[i] == rows[i]
}

/// The area of a rectangle stays what it is when rows follow: it depends on
/// the integral rows up to the last row of the rectangle only.
pub proof fn lemma_area_of_longer<T: Add<Output = T> + Sub<Output = T>>(
    integral: Seq<[T; 12]>,
    longer: Seq<[T; 12]>,
    zero: T,
    row1: int,
    col1: int,
    row2: int,
    col2: int,
)
    requires
        starts_with(longer, integral),
        0 <= row1 <= row2 <= integral.len(),
    ensures
        area_spec(longer, zero, row1, col1, row2, col2) == area_spec(
            integral,
            zero,
            row1,
            col1,
            row2,
            col2,
        ),
{
    if row1 != row2 {
        assert(longer[row2 - 1] == integral[row2 - 1]);
        if row1 != 0 {
            assert(longer[row1 - 1] == integral[row1 - 1]);
        }
    }
}

/// A rolling integral image.
pub struct RollingIntegralImage<T> {
    rows: Vec<[T; 12]>,
    rows_count: usize,
    zero: T,
    added: Ghost<Seq<[T; 12]>>,
    integral: Ghost<Seq<[T; 12]>>,
}

impl<T: Add<Output = T> + Sub<Output = T> + Copy> RollingIntegralImage<T> {
    /// The number of rows that the ring holds at most.
    pub closed spec fn capacity(&self) -> nat {
        self.rows@.len()
    }

    /// The value that stands for nothing.
    pub closed spec fn zero(&self) -> T {
        self.zero
    }

    /// All rows that were added, in the order of arrival.
    pub closed spec fn added(&self) -> Seq<[T; 12]> {
        self.added@
    }

    /// The integral rows of all rows that were added.
    pub closed spec fn integral(&self) -> Seq<[T; 12]> {
        self.integral@
    }

    /// Whether row `row_idx` is still in the ring: it has arrived, and less
    /// than `capacity` rows have arrived since.
    pub open spec fn is_live(&self, row_idx: int) -> bool {
        &&& 0 <= row_idx < self.added().len()
        &&& self.added().len() - self.capacity() <= row_idx
    }

    /// Whether the rectangle of the rows from `row1` up to `row2` and the
    /// columns from `col1` up to `col2` lies inside the image, with its rows
    /// still in the ring. A rectangle without rows or without columns is
    /// inside wherever it lies.
    pub open spec fn is_inside(&self, row1: int, col1: int, row2: int, col2: int) -> bool {
        ||| row1 == row2
        ||| col1 == col2
        ||| {
            &&& 0 <= row1 < row2 <= self.added().len()
            &&& 0 <= col1 < col2 <= COLUMNS
            &&& self.is_live(row2 - 1)
            &&& row1 == 0 || self.is_live(row1 - 1)
        }
    }

    /// Whether the `width` rows from row `x` on have arrived, and they and the
    /// row before them are still in the ring, so that every rectangle in
    /// these rows is inside the image.
    pub open spec fn holds_window(&self, x: int, width: int) -> bool {
        &&& 0 <= x
        &&& 0 <= width
        &&& x + width <= self.added().len() <= usize::MAX
        &&& if x == 0 {
            self.added().len() <= self.capacity()
        } else {
            self.added().len() - self.capacity() <= x - 1
        }
    }

    /// The state invariant: every live integral row is in the slot of its
    /// number modulo the capacity, and where addition goes by its
    /// specification, the integral rows are those of the rows added.
    pub closed spec fn wf(&self) -> bool {
        &&& self.rows@.len() >= 1
        &&& self.rows_count == self.added@.len()
        &&& self.added@.len() == self.integral@.len()
        &&& forall|i: int|
            0 <= i < self.integral@.len() && self.integral@.len() - self.rows@.len() <= i
                ==> self.rows@[i % (self.rows@.len() as int)] == #[trigger] self.integral@[i]
        &&& T::obeys_add_spec() ==> is_integral(self.added@, self.integral@, self.zero)
    }

    /// Where addition goes by its specification, the integral rows of a valid
    /// image are those of the rows added.
    pub proof fn lemma_is_integral(&self)
        requires
            self.wf(),
            T::obeys_add_spec(),
        ensures
            is_integral(self.added(), self.integral(), self.zero()),
    {
    }

    /// Where the arithmetic is exact, the area of a rectangle inside the
    /// image is the sum of the cells of the rectangle.
    pub proof fn lemma_area_is_sum_of_cells(
        &self,
        value: spec_fn(T) -> int,
        row1: int,
        col1: int,
        row2: int,
        col2: int,
    )
        requires
            self.wf(),
            is_exact(value, self.zero()),
            0 <= row1 <= row2 <= self.added().len(),
            0 <= col1 <= col2 <= COLUMNS,
        ensures
            value(area_spec(self.integral(), self.zero(), row1, col1, row2, col2)) == cell_sum(
                self.added(),
                value,
                row1,
                col1,
                row2,
                col2,
            ),
    {
        lemma_area_is_sum(
            self.added(),
            self.integral(),
            self.zero(),
            value,
            row1,
            col1,
            row2,
            col2,
        );
    }

    /// There is one integral row for every row added.
    pub proof fn lemma_integral_len(&self)
        requires
            self.wf(),
        ensures
            self.integral().len() == self.added().len(),
    {
    }

    /// An empty image that keeps the last `max_rows + 1` rows, for cells of
    /// which `zero` stands for nothing.
    pub fn new(max_rows: usize, zero: T) -> (image: RollingIntegralImage<T>)
        requires
            max_rows < usize::MAX,
        ensures
            image.wf(),
            image.capacity() == max_rows + 1,
            image.zero() == zero,
            image.added() == Seq::<[T; 12]>::empty(),
            image.integral() == Seq::<[T; 12]>::empty(),
    {
        let mut rows: Vec<[T; 12]> = Vec::new();
        let mut i: usize = 0;
        while i < max_rows + 1
            invariant
                max_rows < usize::MAX,
                0 <= i <= max_rows + 1,
                rows@.len() == i,
            decreases max_rows + 1 - i,
        {
            rows.push([zero;12]);
            i += 1;
        }
        RollingIntegralImage {
            rows,
            rows_count: 0,
            zero,
            added: Ghost(Seq::empty()),
            integral: Ghost(Seq::empty()),
        }
    }

    /// The value that stands for nothing.
    pub fn zero_value(&self) -> (zero: T)
        ensures
            zero == self.zero(),
    {
        self.zero
    }

    /// The number of rows that were added.
    pub fn rows(&self) -> (count: usize)
        requires
            self.wf(),
        ensures
            count == self.added().len(),
    {
        self.rows_count
    }

    /// The area of the rectangle of the rows from `row1idx` up to `row2idx`
    /// and the columns from `col1idx` up to `col2idx`.
    pub fn area(&self, row1idx: usize, col1idx: usize, row2idx: usize, col2idx: usize) -> (area: T)
        requires
            self.wf(),
            self.is_inside(row1idx as int, col1idx as int, row2idx as int, col2idx as int),
            adds_freely::<T>(),
            subtracts_freely::<T>(),
        ensures
            T::obeys_add_spec() && T::obeys_sub_spec() ==> area == area_spec(
                self.integral(),
                self.zero(),
                row1idx as int,
                col1idx as int,
                row2idx as int,
                col2idx as int,
            ),
    {
        if row1idx == row2idx || col1idx == col2idx {
            return self.zero;
        }
        let ghost live = row2idx - 1;
        assert(self.rows@[live % (self.rows@.len() as int)] == self.integral@[live]);
        if row1idx == 0 {
            let row = &self.rows[(row2idx - 1) % self.rows.len()];

            if col1idx == 0 {
                return row[col2idx - 1];
            } else {
                return row[col2idx - 1] - row[col1idx - 1];
            }
        } else {
            let ghost above = row1idx - 1;
            assert(self.rows@[above % (self.rows@.len() as int)] == self.integral@[above]);
            let row1 = &self.rows[(row1idx - 1) % self.rows.len()];
            let row2 = &self.rows[(row2idx - 1) % self.rows.len()];

            if col1idx == 0 {
                return row2[col2idx - 1] - row1[col2idx - 1];
            } else {
                return row2[col2idx - 1] - row1[col2idx - 1] - row2[col1idx - 1]
                    + row1[col1idx - 1];
            }
        }
    }

    /// Adds `row` as the next row of the image. Its integral row takes the
    /// place of the row that arrived `capacity` rows before it.
    pub fn add_row(&mut self, row: [T; 12])
        requires
            old(self).wf(),
            old(self).added().len() < usize::MAX,
            adds_freely::<T>(),
        ensures
            final(self).wf(),
            final(self).capacity() == old(self).capacity(),
            final(self).zero() == old(self).zero(),
            final(self).added() == old(self).added().push(row),
            final(self).integral().len() == old(self).integral().len() + 1,
            final(self).integral().drop_last() == old(self).integral(),
    {
        let ghost added = self.added@;
        let ghost integral = self.integral@;
        let ghost count = added.len() as int;
        let ghost slots = self.rows@.len() as int;
        let next_row_idx: usize = self.rows_count % self.rows.len();
        let mut next: [T; 12] = [self.zero;12];

        let mut sum: T = self.zero;
        let mut idx: usize = 0;
        while idx < 12
            invariant
                0 <= idx <= 12,
                adds_freely::<T>(),
                T::obeys_add_spec() ==> sum == running_sum(row, self.zero, idx as int),
                T::obeys_add_spec() ==> forall|c: int|
                    0 <= c < idx ==> #[trigger] next[c] == running_sum(row, self.zero, c + 1),
            decreases 12 - idx,
        {
            sum = sum + row[idx];
            next[idx] = sum;
            idx += 1;
        }

        if self.rows_count > 0 {
            let last_row_idx: usize = (self.rows_count - 1) % self.rows.len();
            let last: [T; 12] = self.rows[last_row_idx];
            assert(last == integral[count - 1]) by {
                assert(self.rows@[(count - 1) % slots] == self.integral@[count - 1]);
            }
            let mut idx: usize = 0;
            while idx < 12
                invariant
                    0 <= idx <= 12,
                    adds_freely::<T>(),
                    T::obeys_add_spec() ==> forall|c: int|
                        0 <= c < idx ==> #[trigger] next[c] == running_sum(
                            row,
                            self.zero,
                            c + 1,
                        ).add_spec(last[c]),
                    T::obeys_add_spec() ==> forall|c: int|
                        idx <= c < 12 ==> #[trigger] next[c] == running_sum(row, self.zero, c + 1),
                decreases 12 - idx,
            {
                next[idx] = next[idx] + last[idx];
                idx += 1;
            }
        }

        self.rows[next_row_idx] = next;
        self.rows_count = self.rows_count + 1;
        proof {
            self.added@ = added.push(row);
            self.integral@ = integral.push(next);
            assert(self.integral@.drop_last() =~= integral);
            assert forall|i: int|
                0 <= i < self.integral@.len() && self.integral@.len() - slots
                    <= i implies self.rows@[i % slots] == #[trigger] self.integral@[i] by {
                if i < count {
                    assert(integral[i] == self.integral@[i]);
                    assert(i % slots != count % slots) by (nonlinear_arith)
                        requires
                            count - slots < i < count,
                            slots >= 1,
                    ;
                }
            }
            if T::obeys_add_spec() {
                assert forall|r: int, c: int|
                    0 <= r < self.added@.len() && 0 <= c < COLUMNS implies #[trigger] cell(
                    self.integral@,
                    r,
                    c,
                ) == integral_entry(
                    self.added@[r],
                    if r == 0 {
                        None
                    } else {
                        Some(self.integral@[r - 1])
                    },
                    self.zero,
                    c,
                ) by {
                    if r < count {
                        assert(cell(integral, r, c) == integral_entry(
                            added[r],
                            if r == 0 {
                                None
                            } else {
                                Some(integral[r - 1])
                            },
                            self.zero,
                            c,
                        ));
                    }
                }
            }
        }
    }
}

} // verus!
