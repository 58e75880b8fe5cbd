//! From rows of the chroma image to sub-fingerprints.
//!
//! Once the image holds `FILTER_WIDTH` rows, every new row gives one
//! sub-fingerprint: sixteen filters look at the last `FILTER_WIDTH` rows, each
//! answer is quantized to one of four levels, and the Gray codes of the levels
//! are packed into 32 bits, the first filter in the highest two bits.
//!
//! The answer of a filter is the logarithm of a ratio; the logarithm itself
//! is a function of the caller.

use vstd::prelude::*;
use vstd::std_specs::ops::AddSpec;
use vstd::std_specs::ops::DivSpec;
use vstd::std_specs::ops::SubSpec;
use std::ops::Add;
use std::ops::Div;
use std::ops::Sub;
use crate::arithmetic::adds_freely;
use crate::arithmetic::divides_freely;
use crate::arithmetic::subtracts_freely;
use crate::filter::Filter;
use crate::filter::lemma_answer_of_longer;
use crate::quantizer::Quantizer;
use crate::rolling_integral_image::COLUMNS;
use crate::rolling_integral_image::RollingIntegralImage;
use crate::rolling_integral_image::starts_with;

verus! {

/// The number of rows of the image that a filter can look at.
pub const FILTER_WIDTH: usize = 16;

/// The number of rows that the image keeps besides the newest one.
pub const IMAGE_ROWS: usize = 256;

/// The number of classifiers, with two bits of the sub-fingerprint each.
pub const CLASSIFIER_COUNT: usize = 16;

/// The two-bit Gray code of a quantizer level.
pub open spec fn gray_code_spec(idx: u8) -> u8 {
    if idx == 1 {
        1
    } else if idx == 2 {
        3
    } else if idx == 3 {
        2
    } else {
        0
    }
}

/// Maps a quantizer level to its Gray code: 0, 1, 3, 2 for the levels 0 to 3.
/// Any other input maps to 0.
pub fn gray_code(idx: u8) -> (code: u8)
    ensures
        code == gray_code_spec(idx),
        code < 4,
{
    match idx {
        0 => 0,
        1 => 1,
        2 => 3,
        3 => 2,
        _ => 0,
    }
}

/// The number made of the Gray codes of `levels` as digits of two bits, the
/// first level in the highest digit.
pub open spec fn packed_levels(levels: Seq<u8>) -> nat
    decreases levels.len(),
{
    if levels.len() == 0 {
        0
    } else {
        packed_levels(levels.drop_last()) * 4 + gray_code_spec(levels.last()) as nat
    }
}

/// The number of sub-fingerprints that `rows` rows of the image give.
pub open spec fn subfingerprint_count(rows: nat) -> nat {
    if rows < FILTER_WIDTH {
        0
    } else {
        (rows - (FILTER_WIDTH - 1)) as nat
    }
}

/// Whether a filter stays inside an image window of `FILTER_WIDTH` rows and
/// inside the columns of the image.
pub open spec fn fits_image(filter: Filter) -> bool {
    &&& filter.spec_width() <= FILTER_WIDTH
    &&& filter.spec_y() + filter.spec_height() <= COLUMNS
}

/// Whether `answers` are possible answers of the filters of the first
/// `answers.len()` classifiers when the filter window starts at row `offset`
/// of the integral image `integral`.
pub open spec fn are_answers<
    T: Add<Output = T> + Sub<Output = T> + Div<Output = T>,
    L: Fn(T) -> T,
>(
    ln: L,
    classifiers: [(Filter, Quantizer<T>); 16],
    integral: Seq<[T; 12]>,
    zero: T,
    one: T,
    offset: int,
    answers: Seq<T>,
) -> bool {
    forall|i: int|
        0 <= i < answers.len() ==> classifiers[i].0.is_answer(
            ln,
            integral,
            zero,
            one,
            offset,
            #[trigger] answers[i],
        )
}

/// Whether `levels` are the levels of `answers` under the quantizers of the
/// classifiers.
pub open spec fn are_levels<T: PartialOrd + Copy>(
    classifiers: [(Filter, Quantizer<T>); 16],
    answers: Seq<T>,
    levels: Seq<u8>,
) -> bool {
    &&& answers.len() == levels.len()
    &&& forall|i: int|
        0 <= i < levels.len() ==> classifiers[i].1.is_level(answers[i], #[trigger] levels[i])
}

/// Whether `bits` is a sub-fingerprint that the classifiers may give when the
/// filter window starts at row `offset` of the integral image `integral`:
/// the packed levels of answers of the sixteen filters.
pub open spec fn is_subfingerprint<
    T: Add<Output = T> + Sub<Output = T> + Div<Output = T> + PartialOrd + Copy,
    L: Fn(T) -> T,
>(
    ln: L,
    classifiers: [(Filter, Quantizer<T>); 16],
    integral: Seq<[T; 12]>,
    zero: T,
    one: T,
    offset: int,
    bits: u32,
) -> bool {
    exists|answers: Seq<T>, levels: Seq<u8>|
        {
            &&& levels.len() == CLASSIFIER_COUNT
            &&& are_answers(ln, classifiers, integral, zero, one, offset, answers)
            &&& #[trigger] are_levels(classifiers, answers, levels)
            &&& bits == packed_levels(levels)
        }
}

/// A sub-fingerprint stays the sub-fingerprint of its filter window when rows
/// follow the window.
pub proof fn lemma_subfingerprint_of_longer<
    T: Add<Output = T> + Sub<Output = T> + Div<Output = T> + PartialOrd + Copy,
    L: Fn(T) -> T,
>(
    ln: L,
    classifiers: [(Filter, Quantizer<T>); 16],
    integral: Seq<[T; 12]>,
    longer: Seq<[T; 12]>,
    zero: T,
    one: T,
    offset: int,
    bits: u32,
)
    requires
        starts_with(longer, integral),
        0 <= offset,
        offset + FILTER_WIDTH <= integral.len(),
        forall|i: int| 0 <= i < 16 ==> fits_image((#[trigger] classifiers[i]).0),
        is_subfingerprint(ln, classifiers, integral, zero, one, offset, bits),
    ensures
        is_subfingerprint(ln, classifiers, longer, zero, one, offset, bits),
{
    let (answers, levels) = choose|answers: Seq<T>, levels: Seq<u8>|
        {
            &&& levels.len() == CLASSIFIER_COUNT
            &&& are_answers(ln, classifiers, integral, zero, one, offset, answers)
            &&& #[trigger] are_levels(classifiers, answers, levels)
            &&& bits == packed_levels(levels)
        };
    assert forall|i: int| 0 <= i < answers.len() implies classifiers[i].0.is_answer(
        ln,
        longer,
        zero,
        one,
        offset,
        #[trigger] answers[i],
    ) by {
        assert(fits_image(classifiers[i].0));
        lemma_answer_of_longer(
            classifiers[i].0,
            ln,
            integral,
            longer,
            zero,
            one,
            offset,
            answers[i],
        );
    }
    assert(are_levels(classifiers, answers, levels));
}

/// A number of less than 30 bits with two more bits appended.
proof fn lemma_append_two_bits(bits: u32, code: u8)
    requires
        bits < 0x4000_0000,
        code < 4,
    ensures
        (bits << 2) | (code as u32) == bits * 4 + code,
{
    assert((bits << 2) | (code as u32) == bits * 4 + code) by (bit_vector)
        requires
            bits < 0x4000_0000,
            code < 4,
    ;
}

/// Sixteen digits of two bits fit into 32 bits, and fewer digits stay below
/// the corresponding power of four.
pub proof fn lemma_packed_levels_bound(levels: Seq<u8>)
    requires
        levels.len() <= 16,
    ensures
        packed_levels(levels) < vstd::arithmetic::power2::pow2((2 * levels.len()) as nat),
    decreases levels.len(),
{
    vstd::arithmetic::power2::lemma2_to64();
    if levels.len() > 0 {
        lemma_packed_levels_bound(levels.drop_last());
        vstd::arithmetic::power2::lemma_pow2_adds(2, (2 * (levels.len() - 1)) as nat);
    }
}

/// The stage that turns rows of the chroma image into sub-fingerprints, for
/// cells of the type `T`.
pub struct FingerprintCalculator<T> {
    classifiers: [(Filter, Quantizer<T>); 16],
    image: RollingIntegralImage<T>,
    one: T,
    fingerprint: Vec<u32>,
}

impl<
    T: Add<Output = T> + Sub<Output = T> + Div<Output = T> + PartialOrd + Copy,
> FingerprintCalculator<T> {
    /// The sixteen classifiers.
    pub closed spec fn spec_classifiers(&self) -> [(Filter, Quantizer<T>); 16] {
        self.classifiers
    }

    /// The image of the rows received.
    pub closed spec fn image(&self) -> RollingIntegralImage<T> {
        self.image
    }

    /// The value that stands for the number 1.
    pub closed spec fn one(&self) -> T {
        self.one
    }

    /// The number of rows received.
    pub open spec fn spec_rows(&self) -> nat {
        self.image().added().len()
    }

    /// The sub-fingerprints so far.
    pub closed spec fn spec_fingerprint(&self) -> Seq<u32> {
        self.fingerprint@
    }

    /// Whether every filter stays inside the image window.
    pub open spec fn filters_fit(&self) -> bool {
        forall|i: int| 0 <= i < 16 ==> fits_image((#[trigger] self.spec_classifiers()[i]).0)
    }

    /// Whether the calculator is ready to look at filter windows: every
    /// filter stays inside the image window, and the image keeps more rows
    /// than a filter window is long.
    pub open spec fn looks(&self) -> bool {
        &&& self.filters_fit()
        &&& self.image().wf()
        &&& self.image().capacity() == IMAGE_ROWS + 1
    }

    /// The state invariant: the calculator is ready to look at filter
    /// windows, and there is one sub-fingerprint for every row from row
    /// `FILTER_WIDTH` on.
    pub open spec fn wf(&self) -> bool {
        &&& self.looks()
        &&& self.spec_fingerprint().len() == subfingerprint_count(self.spec_rows())
    }

    /// A calculator with no rows and no sub-fingerprints yet, for cells of
    /// which `zero` stands for nothing and `one` for the number 1.
    pub fn new(classifiers: [(Filter, Quantizer<T>); 16], zero: T, one: T) -> (calculator:
        FingerprintCalculator<T>)
        requires
            forall|i: int| 0 <= i < 16 ==> fits_image((#[trigger] classifiers[i]).0),
        ensures
            calculator.wf(),
            calculator.spec_classifiers() == classifiers,
            calculator.image().zero() == zero,
            calculator.one() == one,
            calculator.image().added() == Seq::<[T; 12]>::empty(),
            calculator.spec_fingerprint() == Seq::<u32>::empty(),
    {
        FingerprintCalculator {
            classifiers,
            image: RollingIntegralImage::new(IMAGE_ROWS, zero),
            one,
            fingerprint: Vec::new(),
        }
    }

    /// The sub-fingerprint of the filter window of the last `FILTER_WIDTH`
    /// rows: each filter answers with the logarithm of the ratio of its two
    /// sums, with `ln` for the logarithm; the quantizer of its classifier
    /// turns the answer into a level; and the Gray codes of the levels are
    /// packed, the first classifier highest.
    pub fn calculate_subfingerprint<L: Fn(T) -> T>(&self, ln: &L) -> (bits: u32)
        requires
            self.looks(),
            self.spec_rows() >= FILTER_WIDTH,
            adds_freely::<T>(),
            subtracts_freely::<T>(),
            divides_freely::<T>(),
            forall|ratio: T| #[trigger] call_requires(*ln, (ratio,)),
        ensures
            is_subfingerprint(
                *ln,
                self.spec_classifiers(),
                self.image().integral(),
                self.image().zero(),
                self.one(),
                self.spec_rows() - FILTER_WIDTH,
                bits,
            ),
    {
        let mut bits: u32 = 0;
        let offset: usize = self.image.rows() - FILTER_WIDTH;
        let ghost mut answers: Seq<T> = Seq::empty();
        let ghost mut levels: Seq<u8> = Seq::empty();
        let mut i: usize = 0;
        while i < 16
            invariant
                self.looks(),
                offset + FILTER_WIDTH == self.spec_rows(),
                self.spec_rows() <= usize::MAX,
                0 <= i <= 16,
                adds_freely::<T>(),
                subtracts_freely::<T>(),
                divides_freely::<T>(),
                forall|ratio: T| #[trigger] call_requires(*ln, (ratio,)),
                levels.len() == i,
                are_answers(
                    *ln,
                    self.spec_classifiers(),
                    self.image().integral(),
                    self.image().zero(),
                    self.one(),
                    offset as int,
                    answers,
                ),
                are_levels(self.spec_classifiers(), answers, levels),
                bits == packed_levels(levels),
            decreases 16 - i,
        {
            assert(fits_image(self.spec_classifiers()[i as int].0));
            let answer: T = self.classifiers[i].0.apply(&self.image, offset, self.one, ln);
            let level: u8 = self.classifiers[i].1.quantize(answer);
            let temp: u8 = gray_code(level);
            proof {
                let before = levels;
                let answered = answers;
                vstd::arithmetic::power2::lemma2_to64();
                lemma_packed_levels_bound(before);
                assert((2 * before.len()) as nat == (2 * i) as nat);
                if i < 15 {
                    vstd::arithmetic::power2::lemma_pow2_strictly_increases((2 * i) as nat, 30);
                }
                lemma_append_two_bits(bits, temp);
                levels = before.push(level);
                answers = answered.push(answer);
                assert(levels.drop_last() =~= before);
                assert forall|k: int|
                    0 <= k < answers.len() implies self.spec_classifiers()[k].0.is_answer(
                    *ln,
                    self.image().integral(),
                    self.image().zero(),
                    self.one(),
                    offset as int,
                    #[trigger] answers[k],
                ) by {
                    if k < i {
                        assert(answers[k] == answered[k]);
                    }
                }
                assert forall|k: int|
                    0 <= k < levels.len() implies self.spec_classifiers()[k].1.is_level(
                    answers[k],
                    #[trigger] levels[k],
                ) by {
                    if k < i {
                        assert(levels[k] == before[k]);
                        assert(answers[k] == answered[k]);
                    }
                }
            }
            bits = (bits << 2) | (temp as u32);
            i += 1;
        }
        assert(are_levels(self.spec_classifiers(), answers, levels));
        bits
    }

    /// Takes one more row of the chroma image. From row `FILTER_WIDTH` on,
    /// the new row completes a filter window, and its sub-fingerprint is
    /// appended.
    pub fn consume<L: Fn(T) -> T>(&mut self, features: [T; 12], ln: &L)
        requires
            old(self).wf(),
            old(self).spec_rows() < usize::MAX,
            adds_freely::<T>(),
            subtracts_freely::<T>(),
            divides_freely::<T>(),
            forall|ratio: T| #[trigger] call_requires(*ln, (ratio,)),
        ensures
            final(self).wf(),
            final(self).spec_classifiers() == old(self).spec_classifiers(),
            final(self).image().zero() == old(self).image().zero(),
            final(self).one() == old(self).one(),
            final(self).image().added() == old(self).image().added().push(features),
            final(self).image().integral().drop_last() == old(self).image().integral(),
            final(self).spec_rows() < FILTER_WIDTH ==> final(self).spec_fingerprint() == old(
                self,
            ).spec_fingerprint(),
            final(self).spec_rows() >= FILTER_WIDTH ==> {
                &&& final(self).spec_fingerprint().drop_last() == old(self).spec_fingerprint()
                &&& is_subfingerprint(
                    *ln,
                    final(self).spec_classifiers(),
                    final(self).image().integral(),
                    final(self).image().zero(),
                    final(self).one(),
                    final(self).spec_rows() - FILTER_WIDTH,
                    final(self).spec_fingerprint().last(),
                )
            },
    {
        self.image.add_row(features);
        assert(self.spec_classifiers() == old(self).spec_classifiers());

        if self.image.rows() >= FILTER_WIDTH {
            let subfingerprint = self.calculate_subfingerprint(ln);
            self.fingerprint.push(subfingerprint);
            assert(self.fingerprint@.drop_last() =~= old(self).spec_fingerprint());
        }
    }

    /// The number of rows received.
    pub fn rows(&self) -> (rows: usize)
        requires
            self.wf(),
        ensures
            rows == self.spec_rows(),
    {
        self.image.rows()
    }

    /// The sub-fingerprints so far: as many as `subfingerprint_count` of the
    /// rows.
    pub fn fingerprint(&self) -> (fingerprint: &[u32])
        requires
            self.wf(),
        ensures
            fingerprint@ == self.spec_fingerprint(),
            fingerprint@.len() == subfingerprint_count(self.spec_rows()),
    {
        self.fingerprint.as_slice()
    }
}

} // verus!
