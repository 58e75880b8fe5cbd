//! The sixteen classifiers of algorithm 1.
//!
//! A classifier is a filter and the quantizer of its answers. The thresholds
//! of the quantizers are decimal fractions with eight places; they are kept
//! exactly, as whole numbers of `1 / THRESHOLD_SCALE`.

use vstd::prelude::*;
use crate::filter::Filter;
use crate::fingerprint_calculator::fits_image;
use crate::quantizer::Quantizer;

verus! {

/// The number that a threshold is multiplied by to make it whole.
pub const THRESHOLD_SCALE: i64 = 100_000_000;

/// The shape, first column, height and width of the filter of each
/// classifier, and the three thresholds of its quantizer times
/// `THRESHOLD_SCALE`, in the order of the classifiers.
pub open spec fn default_classifier_table() -> Seq<(u8, usize, usize, usize, i64, i64, i64)> {
    seq![
        (0u8, 4usize, 3usize, 15usize, 198215000i64, 235817000i64, 263523000i64),
        (4u8, 4usize, 6usize, 15usize, -103809000i64, -65121100i64, -28216700i64),
        (1u8, 0usize, 4usize, 16usize, -29870200i64, 11926200i64, 55849700i64),
        (3u8, 8usize, 2usize, 12usize, -10543900i64, 1539460i64, 13589800i64),
        (3u8, 4usize, 4usize, 8usize, -14289100i64, 2587360i64, 20063200i64),
        (4u8, 0usize, 3usize, 5usize, -82631900i64, -59061200i64, -36821400i64),
        (1u8, 2usize, 2usize, 9usize, -55740900i64, -23303500i64, 5345250i64),
        (2u8, 7usize, 3usize, 4usize, -6468260i64, 620476i64, 7848470i64),
        (2u8, 6usize, 2usize, 16usize, -19238700i64, -2969900i64, 21585500i64),
        (2u8, 1usize, 3usize, 2usize, -3978180i64, -568076i64, 2920260i64),
        (5u8, 10usize, 1usize, 15usize, -53823000i64, -36993400i64, -19023500i64),
        (3u8, 6usize, 2usize, 10usize, -12487700i64, 2964830i64, 13923900i64),
        (2u8, 1usize, 1usize, 14usize, -10147500i64, 2256170i64, 23197100i64),
        (3u8, 5usize, 6usize, 4usize, -7999150i64, -729616i64, 6326200i64),
        (1u8, 9usize, 2usize, 12usize, -27255600i64, 1942400i64, 30255900i64),
        (3u8, 4usize, 2usize, 14usize, -16429200i64, -3211880i64, 8463390i64),
    ]
}

/// Whether `classifier` is the classifier that `entry` describes.
pub open spec fn is_entry(
    classifier: (Filter, Quantizer<i64>),
    entry: (u8, usize, usize, usize, i64, i64, i64),
) -> bool {
    &&& classifier.0.spec_type_id() == entry.0
    &&& classifier.0.spec_y() == entry.1
    &&& classifier.0.spec_height() == entry.2
    &&& classifier.0.spec_width() == entry.3
    &&& classifier.1.thresholds() == (entry.4, entry.5, entry.6)
}

/// The classifiers of algorithm 1, with thresholds in units of
/// `1 / THRESHOLD_SCALE`. Every filter stays inside the image window, and
/// the thresholds of every quantizer rise.
pub fn get_default_classifier() -> (classifiers: [(Filter, Quantizer<i64>); 16])
    ensures
        forall|i: int|
            0 <= i < 16 ==> is_entry(#[trigger] classifiers[i], default_classifier_table()[i]),
        forall|i: int| 0 <= i < 16 ==> fits_image((#[trigger] classifiers[i]).0),
        forall|i: int|
            0 <= i < 16 ==> (#[trigger] classifiers[i]).1.thresholds().0
                < classifiers[i].1.thresholds().1 < classifiers[i].1.thresholds().2,
{
    [
        (Filter::new(0, 4, 3, 15), Quantizer::new(198215000, 235817000, 263523000)),
        (Filter::new(4, 4, 6, 15), Quantizer::new(-103809000, -65121100, -28216700)),
        (Filter::new(1, 0, 4, 16), Quantizer::new(-29870200, 11926200, 55849700)),
        (Filter::new(3, 8, 2, 12), Quantizer::new(-10543900, 1539460, 13589800)),
        (Filter::new(3, 4, 4, 8), Quantizer::new(-14289100, 2587360, 20063200)),
        (Filter::new(4, 0, 3, 5), Quantizer::new(-82631900, -59061200, -36821400)),
        (Filter::new(1, 2, 2, 9), Quantizer::new(-55740900, -23303500, 5345250)),
        (Filter::new(2, 7, 3, 4), Quantizer::new(-6468260, 620476, 7848470)),
        (Filter::new(2, 6, 2, 16), Quantizer::new(-19238700, -2969900, 21585500)),
        (Filter::new(2, 1, 3, 2), Quantizer::new(-3978180, -568076, 2920260)),
        (Filter::new(5, 10, 1, 15), Quantizer::new(-53823000, -36993400, -19023500)),
        (Filter::new(3, 6, 2, 10), Quantizer::new(-12487700, 2964830, 13923900)),
        (Filter::new(2, 1, 1, 14), Quantizer::new(-10147500, 2256170, 23197100)),
        (Filter::new(3, 5, 6, 4), Quantizer::new(-7999150, -729616, 6326200)),
        (Filter::new(1, 9, 2, 12), Quantizer::new(-27255600, 1942400, 30255900)),
        (Filter::new(3, 4, 2, 14), Quantizer::new(-16429200, -3211880, 8463390)),
    ]
}

} // verus!
