//! The filters that compare areas of the chroma image.
//!
//! A filter looks at a rectangle of the image that is `width` rows long, from
//! row `x` on, and `height` columns high, from column `y` on. Its shape splits
//! the rectangle into parts that count for the filter and parts that count
//! against it. The filter adds up the areas of both kinds; its answer is made
//! of the two sums.

use vstd::prelude::*;
use vstd::std_specs::ops::AddSpec;
use vstd::std_specs::ops::DivSpec;
use vstd::std_specs::ops::SubSpec;
use std::ops::Add;
use std::ops::Div;
use std::ops::Sub;
use crate::arithmetic::adds_freely;
use crate::arithmetic::divides_freely;
use crate::arithmetic::is_exact;
use crate::arithmetic::subtracts_freely;
use crate::rolling_integral_image::COLUMNS;
use crate::rolling_integral_image::RollingIntegralImage;
use crate::rolling_integral_image::area_spec;
use crate::rolling_integral_image::cell_sum;
use crate::rolling_integral_image::is_integral;
use crate::rolling_integral_image::lemma_area_is_sum;
use crate::rolling_integral_image::lemma_area_of_longer;
use crate::rolling_integral_image::starts_with;

verus! {

/// A rectangle of the image: the rows from `row1` up to `row2` and the
/// columns from `col1` up to `col2`, both ends exclusive.
pub struct Region {
    /// The first row.
    pub row1: int,
    /// The first column.
    pub col1: int,
    /// The row after the last row.
    pub row2: int,
    /// The column after the last column.
    pub col2: int,
}

impl Region {
    /// Whether the cell in row `row` and column `col` lies in the region.
    pub open spec fn contains(self, row: int, col: int) -> bool {
        self.row1 <= row < self.row2 && self.col1 <= col < self.col2
    }

    /// Whether the region lies in the `w` rows from `x` on and in the `h`
    /// columns from `y` on.
    pub open spec fn is_within(self, x: int, y: int, w: int, h: int) -> bool {
        x <= self.row1 <= self.row2 <= x + w && y <= self.col1 <= self.col2 <= y + h
    }
}

/// The parts of a filter: the regions that count for it and the regions that
/// count against it.
pub struct Regions {
    /// The regions whose areas count for the filter.
    pub positive: Seq<Region>,
    /// The regions whose areas count against the filter.
    pub negative: Seq<Region>,
}

impl Regions {
    /// Whether the cell counts for the filter.
    pub open spec fn counts_for(self, row: int, col: int) -> bool {
        exists|i: int| 0 <= i < self.positive.len() && (#[trigger] self.positive[i]).contains(
            row,
            col,
        )
    }

    /// Whether the cell counts against the filter.
    pub open spec fn counts_against(self, row: int, col: int) -> bool {
        exists|i: int| 0 <= i < self.negative.len() && (#[trigger] self.negative[i]).contains(
            row,
            col,
        )
    }

    /// All parts, those that count for the filter first.
    pub open spec fn all(self) -> Seq<Region> {
        self.positive + self.negative
    }

    /// Whether no cell lies in two parts.
    pub open spec fn disjoint(self) -> bool {
        forall|i: int, j: int, row: int, col: int|
            0 <= i < j < self.all().len() ==> !(#[trigger] self.all()[i].contains(row, col)
                && #[trigger] self.all()[j].contains(row, col))
    }
}

/// The region of the rows `row1..row2` and the columns `col1..col2`.
pub open spec fn region(row1: int, col1: int, row2: int, col2: int) -> Region {
    Region { row1, col1, row2, col2 }
}

/// Shape 0: the whole rectangle counts for the filter.
pub open spec fn filter0_spec(x: int, y: int, w: int, h: int) -> Regions {
    Regions { positive: seq![region(x, y, x + w, y + h)], negative: seq![] }
}

/// Shape 1: the upper half of the columns counts for the filter, the lower
/// half against it.
pub open spec fn filter1_spec(x: int, y: int, w: int, h: int) -> Regions {
    Regions {
        positive: seq![region(x, y + h / 2, x + w, y + h)],
        negative: seq![region(x, y, x + w, y + h / 2)],
    }
}

/// Shape 2: the later half of the rows counts for the filter, the earlier
/// half against it.
pub open spec fn filter2_spec(x: int, y: int, w: int, h: int) -> Regions {
    Regions {
        positive: seq![region(x + w / 2, y, x + w, y + h)],
        negative: seq![region(x, y, x + w / 2, y + h)],
    }
}

/// Shape 3: four quarters that count for and against the filter in turn.
pub open spec fn filter3_spec(x: int, y: int, w: int, h: int) -> Regions {
    Regions {
        positive: seq![
            region(x, y + h / 2, x + w / 2, y + h),
            region(x + w / 2, y, x + w, y + h / 2),
        ],
        negative: seq![
            region(x, y, x + w / 2, y + h / 2),
            region(x + w / 2, y + h / 2, x + w, y + h),
        ],
    }
}

/// Shape 4: a band of columns in the middle counts for the filter, the
/// columns below and above it against it. The lower two bands are `h / 2`
/// columns high each.
pub open spec fn filter4_spec(x: int, y: int, w: int, h: int) -> Regions {
    Regions {
        positive: seq![region(x, y + h / 2, x + w, y + 2 * (h / 2))],
        negative: seq![region(x, y, x + w, y + h / 2), region(x, y + 2 * (h / 2), x + w, y + h)],
    }
}

/// Shape 5: a band of rows in the middle counts for the filter, the rows
/// before and after it against it. The first two bands are `w / 2` rows long
/// each.
pub open spec fn filter5_spec(x: int, y: int, w: int, h: int) -> Regions {
    Regions {
        positive: seq![region(x + w / 2, y, x + 2 * (w / 2), y + h)],
        negative: seq![region(x, y, x + w / 2, y + h), region(x + 2 * (w / 2), y, x + w, y + h)],
    }
}

/// The parts of the shape `type_id`; an unknown shape has no parts.
pub open spec fn regions_spec(type_id: u8, x: int, y: int, w: int, h: int) -> Regions {
    if type_id == 0 {
        filter0_spec(x, y, w, h)
    } else if type_id == 1 {
        filter1_spec(x, y, w, h)
    } else if type_id == 2 {
        filter2_spec(x, y, w, h)
    } else if type_id == 3 {
        filter3_spec(x, y, w, h)
    } else if type_id == 4 {
        filter4_spec(x, y, w, h)
    } else if type_id == 5 {
        filter5_spec(x, y, w, h)
    } else {
        Regions { positive: seq![], negative: seq![] }
    }
}

/// The parts of every known shape tile its rectangle: each cell of the
/// rectangle lies in exactly one part, and no part reaches outside.
pub proof fn lemma_regions_tile(type_id: u8, x: int, y: int, w: int, h: int)
    requires
        type_id <= 5,
        0 <= w,
        0 <= h,
    ensures
        regions_spec(type_id, x, y, w, h).disjoint(),
        forall|i: int|
            0 <= i < regions_spec(type_id, x, y, w, h).all().len() ==> (#[trigger] regions_spec(
                type_id,
                x,
                y,
                w,
                h,
            ).all()[i]).is_within(x, y, w, h),
        forall|row: int, col: int|
            (x <= row < x + w && y <= col < y + h) <==> (#[trigger] regions_spec(
                type_id,
                x,
                y,
                w,
                h,
            ).counts_for(row, col) || regions_spec(type_id, x, y, w, h).counts_against(row, col)),
{
    let parts = regions_spec(type_id, x, y, w, h);
    assert forall|row: int, col: int| (x <= row < x + w && y <= col < y + h) implies (
    #[trigger] parts.counts_for(row, col) || parts.counts_against(row, col)) by {
        let first = parts.positive[0];
        if first.contains(row, col) {
        } else if parts.positive.len() > 1 && parts.positive[1].contains(row, col) {
        } else if parts.negative.len() > 0 && parts.negative[0].contains(row, col) {
        } else {
            assert(parts.negative[1].contains(row, col));
        }
    }
}

/// The area of `region` in the integral image `integral`.
pub open spec fn region_area<T: Add<Output = T> + Sub<Output = T>>(
    integral: Seq<[T; 12]>,
    zero: T,
    region: Region,
) -> T {
    area_spec(integral, zero, region.row1, region.col1, region.row2, region.col2)
}

/// The sum of the areas of `regions`, added one after the other; the sum of
/// no region is `zero`, and the sum of one region is its area.
pub open spec fn regions_area<T: Add<Output = T> + Sub<Output = T>>(
    integral: Seq<[T; 12]>,
    zero: T,
    regions: Seq<Region>,
) -> T
    decreases regions.len(),
{
    if regions.len() == 0 {
        zero
    } else if regions.len() == 1 {
        region_area(integral, zero, regions[0])
    } else {
        regions_area(integral, zero, regions.drop_last()).add_spec(
            region_area(integral, zero, regions.last()),
        )
    }
}

/// The summed areas of two regions are the area of the first plus the area
/// of the second.
pub proof fn lemma_regions_area_of_two<T: Add<Output = T> + Sub<Output = T>>(
    integral: Seq<[T; 12]>,
    zero: T,
    first: Region,
    second: Region,
)
    ensures
        regions_area(integral, zero, seq![first, second]) == region_area(
            integral,
            zero,
            first,
        ).add_spec(region_area(integral, zero, second)),
{
    let both = seq![first, second];
    assert(both.drop_last() =~= seq![first]);
    assert(regions_area(integral, zero, seq![first]) == region_area(integral, zero, first));
}

/// The two sums of a filter of shape `type_id`: the areas that count for it
/// and the areas that count against it.
pub open spec fn sums_spec<T: Add<Output = T> + Sub<Output = T>>(
    type_id: u8,
    integral: Seq<[T; 12]>,
    zero: T,
    x: int,
    y: int,
    w: int,
    h: int,
) -> (T, T) {
    let parts = regions_spec(type_id, x, y, w, h);
    (regions_area(integral, zero, parts.positive), regions_area(integral, zero, parts.negative))
}

/// The sum of the values of the cells of `regions`.
pub open spec fn regions_sum<T>(
    rows: Seq<[T; 12]>,
    value: spec_fn(T) -> int,
    regions: Seq<Region>,
) -> int
    decreases regions.len(),
{
    if regions.len() == 0 {
        0
    } else {
        regions_sum(rows, value, regions.drop_last()) + cell_sum(
            rows,
            value,
            regions.last().row1,
            regions.last().col1,
            regions.last().row2,
            regions.last().col2,
        )
    }
}

/// Where the arithmetic is exact, the summed areas of regions inside the
/// image have the value of the sum of their cells.
pub proof fn lemma_regions_area_is_sum<T: Add<Output = T> + Sub<Output = T>>(
    rows: Seq<[T; 12]>,
    integral: Seq<[T; 12]>,
    zero: T,
    value: spec_fn(T) -> int,
    regions: Seq<Region>,
)
    requires
        is_exact(value, zero),
        is_integral(rows, integral, zero),
        forall|i: int|
            0 <= i < regions.len() ==> (#[trigger] regions[i]).is_within(
                0,
                0,
                rows.len() as int,
                COLUMNS as int,
            ),
    ensures
        value(regions_area(integral, zero, regions)) == regions_sum(rows, value, regions),
    decreases regions.len(),
{
    if regions.len() > 0 {
        let last = regions.last();
        assert(regions[regions.len() - 1].is_within(0, 0, rows.len() as int, COLUMNS as int));
        lemma_area_is_sum(rows, integral, zero, value, last.row1, last.col1, last.row2, last.col2);
        assert forall|i: int| 0 <= i < regions.drop_last().len() implies (
        #[trigger] regions.drop_last()[i]).is_within(0, 0, rows.len() as int, COLUMNS as int) by {
            assert(regions[i].is_within(0, 0, rows.len() as int, COLUMNS as int));
        }
        lemma_regions_area_is_sum(rows, integral, zero, value, regions.drop_last());
        if regions.len() == 1 {
            assert(regions.drop_last().len() == 0);
        }
    }
}

/// The summed areas of regions stay what they are when rows follow.
pub proof fn lemma_regions_area_of_longer<T: Add<Output = T> + Sub<Output = T>>(
    integral: Seq<[T; 12]>,
    longer: Seq<[T; 12]>,
    zero: T,
    regions: Seq<Region>,
)
    requires
        starts_with(longer, integral),
        forall|i: int|
            0 <= i < regions.len() ==> 0 <= (#[trigger] regions[i]).row1 <= regions[i].row2
                <= integral.len(),
    ensures
        regions_area(longer, zero, regions) == regions_area(integral, zero, regions),
    decreases regions.len(),
{
    if regions.len() > 0 {
        let last = regions.last();
        assert(0 <= regions[regions.len() - 1].row1);
        lemma_area_of_longer(integral, longer, zero, last.row1, last.col1, last.row2, last.col2);
        if regions.len() > 1 {
            assert forall|i: int| 0 <= i < regions.drop_last().len() implies 0 <= (
            #[trigger] regions.drop_last()[i]).row1 <= regions.drop_last()[i].row2
                <= integral.len() by {
                assert(0 <= regions[i].row1);
            }
            lemma_regions_area_of_longer(integral, longer, zero, regions.drop_last());
        }
    }
}

/// The two sums of a filter stay what they are when rows follow the
/// rectangle of the filter.
pub proof fn lemma_sums_of_longer<T: Add<Output = T> + Sub<Output = T>>(
    type_id: u8,
    integral: Seq<[T; 12]>,
    longer: Seq<[T; 12]>,
    zero: T,
    x: int,
    y: int,
    w: int,
    h: int,
)
    requires
        starts_with(longer, integral),
        0 <= x,
        0 <= w,
        0 <= h,
        x + w <= integral.len(),
    ensures
        sums_spec(type_id, longer, zero, x, y, w, h) == sums_spec(
            type_id,
            integral,
            zero,
            x,
            y,
            w,
            h,
        ),
{
    let parts = regions_spec(type_id, x, y, w, h);
    if type_id <= 5 {
        lemma_regions_tile(type_id, x, y, w, h);
        assert forall|i: int| 0 <= i < parts.positive.len() implies 0 <= (
        #[trigger] parts.positive[i]).row1 <= parts.positive[i].row2 <= integral.len() by {
            assert(parts.all()[i].is_within(x, y, w, h));
        }
        assert forall|i: int| 0 <= i < parts.negative.len() implies 0 <= (
        #[trigger] parts.negative[i]).row1 <= parts.negative[i].row2 <= integral.len() by {
            assert(parts.all()[parts.positive.len() + i].is_within(x, y, w, h));
        }
    }
    lemma_regions_area_of_longer(integral, longer, zero, parts.positive);
    lemma_regions_area_of_longer(integral, longer, zero, parts.negative);
}

/// The two sums of shape 0 for the rectangle of `w` rows from `x` on and `h`
/// columns from `y` on.
pub fn filter0<T: Add<Output = T> + Sub<Output = T> + Copy>(
    image: &RollingIntegralImage<T>,
    x: usize,
    y: usize,
    w: usize,
    h: usize,
) -> (sums: (T, T))
    requires
        image.wf(),
        image.holds_window(x as int, w as int),
        y + h <= COLUMNS,
        adds_freely::<T>(),
        subtracts_freely::<T>(),
    ensures
        T::obeys_add_spec() && T::obeys_sub_spec() ==> sums == sums_spec(
            0,
            image.integral(),
            image.zero(),
            x as int,
            y as int,
            w as int,
            h as int,
        ),
{
    (image.area(x, y, x + w, y + h), image.zero_value())
}

/// The two sums of shape 1.
pub fn filter1<T: Add<Output = T> + Sub<Output = T> + Copy>(
    image: &RollingIntegralImage<T>,
    x: usize,
    y: usize,
    w: usize,
    h: usize,
) -> (sums: (T, T))
    requires
        image.wf(),
        image.holds_window(x as int, w as int),
        y + h <= COLUMNS,
        adds_freely::<T>(),
        subtracts_freely::<T>(),
    ensures
        T::obeys_add_spec() && T::obeys_sub_spec() ==> sums == sums_spec(
            1,
            image.integral(),
            image.zero(),
            x as int,
            y as int,
            w as int,
            h as int,
        ),
{
    let h_2: usize = h / 2;

    (image.area(x, y + h_2, x + w, y + h), image.area(x, y, x + w, y + h_2))
}

/// The two sums of shape 2.
pub fn filter2<T: Add<Output = T> + Sub<Output = T> + Copy>(
    image: &RollingIntegralImage<T>,
    x: usize,
    y: usize,
    w: usize,
    h: usize,
) -> (sums: (T, T))
    requires
        image.wf(),
        image.holds_window(x as int, w as int),
        y + h <= COLUMNS,
        adds_freely::<T>(),
        subtracts_freely::<T>(),
    ensures
        T::obeys_add_spec() && T::obeys_sub_spec() ==> sums == sums_spec(
            2,
            image.integral(),
            image.zero(),
            x as int,
            y as int,
            w as int,
            h as int,
        ),
{
    let w_2: usize = w / 2;

    (image.area(x + w_2, y, x + w, y + h), image.area(x, y, x + w_2, y + h))
}

/// The two sums of shape 3.
pub fn filter3<T: Add<Output = T> + Sub<Output = T> + Copy>(
    image: &RollingIntegralImage<T>,
    x: usize,
    y: usize,
    w: usize,
    h: usize,
) -> (sums: (T, T))
    requires
        image.wf(),
        image.holds_window(x as int, w as int),
        y + h <= COLUMNS,
        adds_freely::<T>(),
        subtracts_freely::<T>(),
    ensures
        T::obeys_add_spec() && T::obeys_sub_spec() ==> sums == sums_spec(
            3,
            image.integral(),
            image.zero(),
            x as int,
            y as int,
            w as int,
            h as int,
        ),
{
    let w_2: usize = w / 2;
    let h_2: usize = h / 2;
    proof {
        let parts = filter3_spec(x as int, y as int, w as int, h as int);
        lemma_regions_area_of_two(
            image.integral(),
            image.zero(),
            parts.positive[0],
            parts.positive[1],
        );
        lemma_regions_area_of_two(
            image.integral(),
            image.zero(),
            parts.negative[0],
            parts.negative[1],
        );
    }

    (
        image.area(x, y + h_2, x + w_2, y + h) + image.area(x + w_2, y, x + w, y + h_2),
        image.area(x, y, x + w_2, y + h_2) + image.area(x + w_2, y + h_2, x + w, y + h),
    )
}

/// The two sums of shape 4.
pub fn filter4<T: Add<Output = T> + Sub<Output = T> + Copy>(
    image: &RollingIntegralImage<T>,
    x: usize,
    y: usize,
    w: usize,
    h: usize,
) -> (sums: (T, T))
    requires
        image.wf(),
        image.holds_window(x as int, w as int),
        y + h <= COLUMNS,
        adds_freely::<T>(),
        subtracts_freely::<T>(),
    ensures
        T::obeys_add_spec() && T::obeys_sub_spec() ==> sums == sums_spec(
            4,
            image.integral(),
            image.zero(),
            x as int,
            y as int,
            w as int,
            h as int,
        ),
{
    let h_3: usize = h / 2;
    proof {
        let parts = filter4_spec(x as int, y as int, w as int, h as int);
        lemma_regions_area_of_two(
            image.integral(),
            image.zero(),
            parts.negative[0],
            parts.negative[1],
        );
    }

    (
        image.area(x, y + h_3, x + w, y + 2 * h_3),
        image.area(x, y, x + w, y + h_3) + image.area(x, y + 2 * h_3, x + w, y + h),
    )
}

/// The two sums of shape 5.
pub fn filter5<T: Add<Output = T> + Sub<Output = T> + Copy>(
    image: &RollingIntegralImage<T>,
    x: usize,
    y: usize,
    w: usize,
    h: usize,
) -> (sums: (T, T))
    requires
        image.wf(),
        image.holds_window(x as int, w as int),
        y + h <= COLUMNS,
        adds_freely::<T>(),
        subtracts_freely::<T>(),
    ensures
        T::obeys_add_spec() && T::obeys_sub_spec() ==> sums == sums_spec(
            5,
            image.integral(),
            image.zero(),
            x as int,
            y as int,
            w as int,
            h as int,
        ),
{
    let w_3: usize = w / 2;
    proof {
        let parts = filter5_spec(x as int, y as int, w as int, h as int);
        lemma_regions_area_of_two(
            image.integral(),
            image.zero(),
            parts.negative[0],
            parts.negative[1],
        );
    }

    (
        image.area(x + w_3, y, x + 2 * w_3, y + h),
        image.area(x, y, x + w_3, y + h) + image.area(x + 2 * w_3, y, x + w, y + h),
    )
}

/// The ratio of which the answer of a filter is the logarithm, for the two
/// sums `a` and `b`: `one + a` over `one + b`.
pub open spec fn ratio_spec<T: Add<Output = T> + Div<Output = T>>(a: T, b: T, one: T) -> T {
    one.add_spec(a).div_spec(one.add_spec(b))
}

/// Whether `answer` is what `subtract_log` may give for the sums `a` and `b`:
/// what `ln` makes of a ratio which, in an arithmetic that goes by its
/// specification, is the ratio of `one + a` to `one + b`.
pub open spec fn is_log_of_ratio<T: Add<Output = T> + Div<Output = T>, L: Fn(T) -> T>(
    ln: L,
    a: T,
    b: T,
    one: T,
    answer: T,
) -> bool {
    exists|ratio: T|
        {
            &&& #[trigger] call_ensures(ln, (ratio,), answer)
            &&& T::obeys_add_spec() && T::obeys_div_spec() ==> ratio == ratio_spec(a, b, one)
        }
}

/// The logarithm of the ratio of `one + a` to `one + b`, with `ln` for the
/// logarithm and `one` for the number 1.
pub fn subtract_log<T: Add<Output = T> + Div<Output = T> + Copy, L: Fn(T) -> T>(
    a: T,
    b: T,
    one: T,
    ln: &L,
) -> (answer: T)
    requires
        adds_freely::<T>(),
        divides_freely::<T>(),
        forall|ratio: T| #[trigger] call_requires(*ln, (ratio,)),
    ensures
        is_log_of_ratio(*ln, a, b, one, answer),
{
    ln((one + a) / (one + b))
}

/// A filter: a shape and the columns of the image that it looks at.
#[derive(Clone, Copy, Debug, PartialEq, Eq, Structural)]
pub struct Filter {
    type_id: u8,
    y: usize,
    height: usize,
    width: usize,
}

impl Filter {
    /// The shape of the filter, 0 to 5.
    pub closed spec fn spec_type_id(self) -> u8 {
        self.type_id
    }

    /// The first column of the rectangle.
    pub closed spec fn spec_y(self) -> usize {
        self.y
    }

    /// The number of columns of the rectangle.
    pub closed spec fn spec_height(self) -> usize {
        self.height
    }

    /// The number of rows of the rectangle.
    pub closed spec fn spec_width(self) -> usize {
        self.width
    }

    /// The two sums of the filter when its rectangle starts at row `x` of the
    /// integral image `integral`.
    pub open spec fn sums<T: Add<Output = T> + Sub<Output = T>>(
        self,
        integral: Seq<[T; 12]>,
        zero: T,
        x: int,
    ) -> (T, T) {
        sums_spec(
            self.spec_type_id(),
            integral,
            zero,
            x,
            self.spec_y() as int,
            self.spec_width() as int,
            self.spec_height() as int,
        )
    }

    /// Whether `answer` is an answer that `apply` may give when the rectangle
    /// of the filter starts at row `x`: the logarithm of the ratio for two
    /// sums which, in an arithmetic that goes by its specification, are the
    /// two sums of the filter.
    pub open spec fn is_answer<
        T: Add<Output = T> + Sub<Output = T> + Div<Output = T>,
        L: Fn(T) -> T,
    >(self, ln: L, integral: Seq<[T; 12]>, zero: T, one: T, x: int, answer: T) -> bool {
        exists|a: T, b: T|
            {
                &&& #[trigger] is_log_of_ratio(ln, a, b, one, answer)
                &&& T::obeys_add_spec() && T::obeys_sub_spec() ==> (a, b) == self.sums(
                    integral,
                    zero,
                    x,
                )
            }
    }

    /// A filter of shape `type_id` over `width` rows and over `height`
    /// columns from column `y` on.
    pub fn new(type_id: u8, y: usize, height: usize, width: usize) -> (filter: Filter)
        ensures
            filter.spec_type_id() == type_id,
            filter.spec_y() == y,
            filter.spec_height() == height,
            filter.spec_width() == width,
    {
        Filter { type_id, y, height, width }
    }

    /// The shape of the filter.
    pub fn type_id(&self) -> (type_id: u8)
        ensures
            type_id == self.spec_type_id(),
    {
        self.type_id
    }

    /// The first column of the rectangle.
    pub fn y(&self) -> (y: usize)
        ensures
            y == self.spec_y(),
    {
        self.y
    }

    /// The number of columns of the rectangle.
    pub fn height(&self) -> (height: usize)
        ensures
            height == self.spec_height(),
    {
        self.height
    }

    /// The number of rows of the rectangle.
    pub fn width(&self) -> (width: usize)
        ensures
            width == self.spec_width(),
    {
        self.width
    }

    /// The answer of the filter when its rectangle starts at row `x` of
    /// `image`: the logarithm of the ratio of one plus the sum of the areas
    /// that count for the filter to one plus the sum of the areas that count
    /// against it, with `ln` for the logarithm and `one` for the number 1. An
    /// unknown shape sums nothing on both sides.
    pub fn apply<T: Add<Output = T> + Sub<Output = T> + Div<Output = T> + Copy, L: Fn(T) -> T>(
        &self,
        image: &RollingIntegralImage<T>,
        x: usize,
        one: T,
        ln: &L,
    ) -> (answer: T)
        requires
            image.wf(),
            image.holds_window(x as int, self.spec_width() as int),
            self.spec_y() + self.spec_height() <= COLUMNS,
            adds_freely::<T>(),
            subtracts_freely::<T>(),
            divides_freely::<T>(),
            forall|ratio: T| #[trigger] call_requires(*ln, (ratio,)),
        ensures
            self.is_answer(*ln, image.integral(), image.zero(), one, x as int, answer),
    {
        let (a, b) = match self.type_id {
            0 => filter0(image, x, self.y, self.width, self.height),
            1 => filter1(image, x, self.y, self.width, self.height),
            2 => filter2(image, x, self.y, self.width, self.height),
            3 => filter3(image, x, self.y, self.width, self.height),
            4 => filter4(image, x, self.y, self.width, self.height),
            5 => filter5(image, x, self.y, self.width, self.height),
            _ => (image.zero_value(), image.zero_value()),
        };

        let answer = subtract_log(a, b, one, ln);
        assert(is_log_of_ratio(*ln, a, b, one, answer));
        answer
    }
}

/// An answer of a filter stays an answer when rows follow the rectangle of
/// the filter.
pub proof fn lemma_answer_of_longer<
    T: Add<Output = T> + Sub<Output = T> + Div<Output = T>,
    L: Fn(T) -> T,
>(
    filter: Filter,
    ln: L,
    integral: Seq<[T; 12]>,
    longer: Seq<[T; 12]>,
    zero: T,
    one: T,
    x: int,
    answer: T,
)
    requires
        starts_with(longer, integral),
        0 <= x,
        x + filter.spec_width() <= integral.len(),
        filter.is_answer(ln, integral, zero, one, x, answer),
    ensures
        filter.is_answer(ln, longer, zero, one, x, answer),
{
    let (a, b) = choose|a: T, b: T|
        {
            &&& #[trigger] is_log_of_ratio(ln, a, b, one, answer)
            &&& T::obeys_add_spec() && T::obeys_sub_spec() ==> (a, b) == filter.sums(
                integral,
                zero,
                x,
            )
        };
    lemma_sums_of_longer(
        filter.spec_type_id(),
        integral,
        longer,
        zero,
        x,
        filter.spec_y() as int,
        filter.spec_width() as int,
        filter.spec_height() as int,
    );
    assert(is_log_of_ratio(ln, a, b, one, answer));
}

} // verus!
