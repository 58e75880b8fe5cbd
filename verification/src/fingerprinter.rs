//! The pipeline from samples to a fingerprint, and the fingerprint with its
//! compressed and text forms.
//!
//! Samples at any rate are resampled to the target rate and cut into frames
//! that overlap. Every frame is transformed and gives a power spectrum; the
//! spectrum is folded onto the twelve pitch classes; the chroma rows are
//! smoothed over time and normalized; and every sixteen rows of the image
//! that they make give a sub-fingerprint.
//!
//! The pipeline works on numbers of any type with the four operations and an
//! order. The transform of a frame, the square root and the logarithm are
//! functions of the caller. What each stage makes of what came before it is
//! part of the state invariant of the pipeline.

use vstd::prelude::*;
use vstd::std_specs::ops::AddSpec;
use vstd::std_specs::ops::MulSpec;
use std::ops::Add;
use std::ops::Div;
use std::ops::Mul;
use std::ops::Sub;
use crate::arithmetic::adds_freely;
use crate::arithmetic::divides_freely;
use crate::arithmetic::multiplies_freely;
use crate::arithmetic::subtracts_freely;
use crate::audio_processor::AudioProcessor;
use crate::audio_processor::MAX_BUFFER_SIZE;
use crate::audio_processor::RESAMPLE_PHASE_COUNT;
use crate::audio_processor::resample_block;
use crate::audio_processor::resample_stream;
use crate::audio_processor::state_after_block;
use crate::audio_processor::valid_parameters;
use crate::chroma::Chroma;
use crate::chroma::class_sum;
use crate::chroma::gives_notes;
use crate::chroma::max_idx_spec;
use crate::chroma::min_idx_spec;
use crate::chroma_filter::BUFFER_LENGTH;
use crate::chroma_filter::ChromaFilter;
use crate::chroma_filter::weighted_sum;
use crate::chroma_normalize::is_norm;
use crate::chroma_normalize::is_normalized;
use crate::chroma_normalize::normalize_vector;
use crate::encode::encode;
use crate::encode::encoded;
use crate::fft::FRAME_SIZE;
use crate::fft::Fft;
use crate::fft::is_spectrum;
use crate::fft::transforms_frames;
use crate::filter::Filter;
use crate::fingerprint_calculator::FingerprintCalculator;
use crate::fingerprint_calculator::fits_image;
use crate::fingerprint_calculator::is_subfingerprint;
use crate::fingerprint_calculator::lemma_subfingerprint_of_longer;
use crate::fingerprint_calculator::subfingerprint_count;
use crate::fingerprint_compressor::compress;
use crate::fingerprint_compressor::compressed;
use crate::quantizer::Quantizer;
use crate::resampler::closing_phase;
use crate::rolling_integral_image::starts_with;
use crate::slicer::contents;
use crate::slicer::lemma_window_len;
use crate::slicer::lemma_windows_of_pieces;
use crate::slicer::remainder;
use crate::slicer::window_count;
use crate::slicer::windows;

verus! {

/// The sample rate at which the spectrum is taken.
pub const TARGET_SAMPLE_RATE: u16 = 11025;

/// The lowest frequency that takes part in the chroma, in Hz.
pub const MIN_FREQ: u32 = 28;

/// The highest frequency that takes part in the chroma, in Hz.
pub const MAX_FREQ: u32 = 3520;

/// The number of samples that two frames in a row share.
pub const FRAME_OVERLAP: usize = FRAME_SIZE - FRAME_SIZE / 3;

/// The number of taps of the filter that smooths the chroma over time.
pub const CHROMA_FILTER_LENGTH: usize = 5;

/// The coefficients of the filter that smooths the chroma over time, that of
/// the oldest row first, in units of `1 / CHROMA_FILTER_SCALE`.
pub fn chroma_filter_coefficients() -> (coefficients: [i64; 5])
    ensures
        coefficients@ == seq![1i64, 3, 4, 3, 1],
        coefficients@.len() == CHROMA_FILTER_LENGTH,
{
    let coefficients: [i64; 5] = [1, 3, 4, 3, 1];
    assert(coefficients@ =~= seq![1i64, 3, 4, 3, 1]);
    coefficients
}

/// The number that the coefficients of the chroma filter are multiplied by
/// to make them whole.
pub const CHROMA_FILTER_SCALE: i64 = 4;

/// The norm below which a chroma row is taken for silence, in units of
/// `1 / NORM_LIMIT_SCALE`.
pub const NORM_LIMIT: i64 = 1;

/// The number that the limit of the norm is multiplied by to make it whole.
pub const NORM_LIMIT_SCALE: i64 = 100;

/// The algorithm that the header of a compressed fingerprint names.
pub const ALGORITHM: u8 = 1;

/// The number of samples from the start of one frame to the start of the
/// next.
pub const FRAME_STRIDE: usize = FRAME_SIZE - FRAME_OVERLAP;

/// The number of rows that the chroma filter gives for `frames` frames: none
/// until there are as many frames as taps, and one for every frame from then
/// on.
pub open spec fn filtered_count(frames: nat) -> nat {
    if frames < CHROMA_FILTER_LENGTH {
        0
    } else {
        (frames - (CHROMA_FILTER_LENGTH - 1)) as nat
    }
}

/// The number of sub-fingerprints that `samples` samples at the target rate
/// give: the samples are cut into frames, every frame gives a chroma row,
/// the rows go through the chroma filter, and the filtered rows through the
/// calculator.
pub open spec fn fingerprint_len(samples: nat) -> nat {
    subfingerprint_count(
        filtered_count(window_count(samples, FRAME_SIZE as nat, FRAME_STRIDE as nat)),
    )
}

/// The number of sub-fingerprints in terms of the number of samples at the
/// target rate: none below twenty frames, and from there on one for every
/// further frame.
pub proof fn lemma_fingerprint_len(samples: nat)
    ensures
        fingerprint_len(samples) == if samples < FRAME_SIZE + 19 * FRAME_STRIDE {
            0
        } else {
            (samples - FRAME_SIZE) / (FRAME_STRIDE as int) - 18
        },
{
    let frames = window_count(samples, FRAME_SIZE as nat, FRAME_STRIDE as nat);
    if samples >= FRAME_SIZE {
        let whole = (samples - FRAME_SIZE) / (FRAME_STRIDE as int);
        let rest = samples - FRAME_SIZE;
        assert(frames == whole + 1);
        assert(FRAME_STRIDE == 1365);
        assert(whole >= 19 <==> rest >= 19 * 1365) by (nonlinear_arith)
            requires
                whole == rest / 1365,
                rest >= 0,
        ;
    }
}

/// A fingerprint: sub-fingerprints in the order of time.
pub struct Fingerprint<'a>(pub &'a [u32]);

impl<'a> Fingerprint<'a> {
    /// The compressed form of the fingerprint, for algorithm 1.
    pub fn compress(&self) -> (out: CompressedFingerprint)
        requires
            compressed(self.0@, ALGORITHM).len() <= usize::MAX,
        ensures
            out.0@ == compressed(self.0@, ALGORITHM),
    {
        CompressedFingerprint(compress(self.0, ALGORITHM))
    }
}

/// A compressed fingerprint.
pub struct CompressedFingerprint(pub Vec<u8>);

impl CompressedFingerprint {
    /// The text form of the compressed fingerprint.
    pub fn encode(&self) -> (text: String)
        requires
            4 * (self.0@.len() / 3) + 3 <= usize::MAX,
        ensures
            text@ == encoded(self.0@),
    {
        encode(self.0.as_slice())
    }
}

/// The samples of `chunks`, one chunk after the other.
pub open spec fn joined(chunks: Seq<Seq<i16>>) -> Seq<i16>
    decreases chunks.len(),
{
    if chunks.len() == 0 {
        Seq::empty()
    } else {
        joined(chunks.drop_last()) + chunks.last()
    }
}

/// The first `n + 1` chunks joined are the first `n` chunks joined and chunk
/// `n`, and no more samples than all chunks joined.
pub proof fn lemma_joined_take(chunks: Seq<Seq<i16>>, n: int)
    requires
        0 <= n < chunks.len(),
    ensures
        joined(chunks.take(n + 1)) == joined(chunks.take(n)) + chunks[n],
        joined(chunks.take(n + 1)).len() <= joined(chunks).len(),
    decreases chunks.len() - n,
{
    assert(chunks.take(n + 1).drop_last() =~= chunks.take(n));
    if n + 1 < chunks.len() {
        lemma_joined_take(chunks, n + 1);
        assert(joined(chunks.take(n + 2)) == joined(chunks.take(n + 1)) + chunks[n + 1]);
    } else {
        assert(chunks.take(n + 1) =~= chunks);
    }
}

/// What is left of a stream after its frames is no longer than the stream.
pub proof fn lemma_remainder_len<T>(stream: Seq<T>, size: nat, stride: nat)
    requires
        1 <= stride <= size,
    ensures
        remainder(stream, size, stride).len() <= stream.len(),
{
    let count = window_count(stream.len(), size, stride);
    if count > 0 {
        crate::slicer::lemma_windows_inside(stream.len(), size, stride, count - 1);
    }
}

/// A stream has no more frames than elements.
pub proof fn lemma_frames_len<T>(stream: Seq<T>, size: nat, stride: nat)
    requires
        1 <= stride <= size,
    ensures
        windows(stream, size, stride).len() <= stream.len(),
{
    let count = window_count(stream.len(), size, stride);
    if count > 0 {
        crate::slicer::lemma_windows_inside(stream.len(), size, stride, count - 1);
        assert(count <= count * stride) by (nonlinear_arith)
            requires
                count >= 0,
                stride >= 1,
        ;
    }
}

/// Whether `row` is the chroma of `spectrum`: in an addition that goes by its
/// specification, every entry is the sum of the bins of its pitch class.
pub open spec fn is_chroma_row<T: Add<Output = T>>(
    chroma: Chroma,
    spectrum: Seq<T>,
    zero: T,
    row: [T; 12],
) -> bool {
    T::obeys_add_spec() ==> forall|note: int|
        0 <= note < 12 ==> #[trigger] row[note] == class_sum(
            chroma.spec_note_range().spec_notes(),
            spectrum,
            zero,
            note,
            chroma.spec_note_range().spec_min_idx(),
            chroma.spec_note_range().spec_max_idx(),
        )
}

/// Whether `filtered` holds the weighted sums of `window`, in an arithmetic
/// that goes by its specification.
pub open spec fn is_weighted<T: Add<Output = T> + Mul<Output = T>>(
    window: Seq<[T; 12]>,
    coefficients: Seq<T>,
    zero: T,
    filtered: [T; 12],
) -> bool {
    T::obeys_add_spec() && T::obeys_mul_spec() ==> forall|col: int|
        0 <= col < 12 ==> #[trigger] filtered[col] == weighted_sum(
            window,
            coefficients,
            zero,
            col,
            coefficients.len() as int,
        )
}

/// Whether `row` is a row of the image that the chroma rows of `window` may
/// give: their weighted sums, normalized.
pub open spec fn is_image_row<
    T: Add<Output = T> + Mul<Output = T> + Div<Output = T> + PartialOrd,
    S: Fn(T) -> T,
>(sqrt: S, coefficients: Seq<T>, zero: T, limit: T, window: Seq<[T; 12]>, row: [T; 12]) -> bool {
    exists|filtered: [T; 12], norm: T|
        {
            &&& #[trigger] is_norm(sqrt, filtered, zero, norm)
            &&& is_weighted(window, coefficients, zero, filtered)
            &&& is_normalized(filtered, zero, limit, norm, row)
        }
}

/// The pipeline from samples at any rate to sub-fingerprints, for numbers of
/// the type `T`, with `F` for the transform of a frame, `S` for the square
/// root and `L` for the logarithm.
pub struct Fingerprinter<T, F, S, L> {
    audio_processor: AudioProcessor,
    fft: Fft,
    chroma: Chroma,
    chroma_filter: ChromaFilter<T>,
    fingerprint_calculator: FingerprintCalculator<T>,
    zero: T,
    limit: T,
    transform: F,
    sqrt: S,
    ln: L,
    resampled: Ghost<Seq<i16>>,
    spectra: Ghost<Seq<Seq<T>>>,
}

impl<
    T: Add<Output = T> + Sub<Output = T> + Mul<Output = T> + Div<Output = T> + PartialOrd + Copy,
    F: Fn(Vec<i16>) -> Vec<(T, T)>,
    S: Fn(T) -> T,
    L: Fn(T) -> T,
> Fingerprinter<T, F, S, L> {
    /// The resampling stage.
    pub closed spec fn audio_processor(&self) -> AudioProcessor {
        self.audio_processor
    }

    /// The stage that cuts the frames and takes their power spectra.
    pub closed spec fn fft(&self) -> Fft {
        self.fft
    }

    /// The folding onto pitch classes.
    pub closed spec fn chroma(&self) -> Chroma {
        self.chroma
    }

    /// The filter that smooths the chroma over time.
    pub closed spec fn chroma_filter(&self) -> ChromaFilter<T> {
        self.chroma_filter
    }

    /// The stage that turns rows of the image into sub-fingerprints.
    pub closed spec fn fingerprint_calculator(&self) -> FingerprintCalculator<T> {
        self.fingerprint_calculator
    }

    /// The value that stands for nothing.
    pub closed spec fn zero(&self) -> T {
        self.zero
    }

    /// The norm below which a chroma row is taken for silence.
    pub closed spec fn limit(&self) -> T {
        self.limit
    }

    /// The transform of a frame.
    pub closed spec fn transform(&self) -> F {
        self.transform
    }

    /// The square root.
    pub closed spec fn sqrt(&self) -> S {
        self.sqrt
    }

    /// The logarithm.
    pub closed spec fn ln(&self) -> L {
        self.ln
    }

    /// All samples that came out of the resampler, in order.
    pub closed spec fn resampled(&self) -> Seq<i16> {
        self.resampled@
    }

    /// The power spectra of the frames so far.
    pub closed spec fn spectra(&self) -> Seq<Seq<T>> {
        self.spectra@
    }

    /// The frames of the resampled samples.
    pub open spec fn frames(&self) -> Seq<Seq<i16>> {
        windows(self.resampled(), FRAME_SIZE as nat, FRAME_STRIDE as nat)
    }

    /// The chroma rows so far, one for every spectrum.
    pub open spec fn chroma_rows(&self) -> Seq<[T; 12]> {
        self.chroma_filter().history()
    }

    /// The rows of the image so far.
    pub open spec fn image_rows(&self) -> Seq<[T; 12]> {
        self.fingerprint_calculator().image().added()
    }

    /// The sub-fingerprints so far.
    pub open spec fn spec_fingerprint(&self) -> Seq<u32> {
        self.fingerprint_calculator().spec_fingerprint()
    }

    /// Whether the stages are set up for each other: the frames are those of
    /// the pipeline, every spectrum covers the bins that take part in the
    /// chroma, all stages agree on what stands for nothing, and the
    /// functions of the caller and the arithmetic of `T` take any values.
    pub open spec fn configured(&self) -> bool {
        &&& self.audio_processor().wf()
        &&& self.fft().wf()
        &&& self.fft().stride() == FRAME_STRIDE
        &&& self.chroma().spec_note_range().wf()
        &&& self.chroma().spec_note_range().spec_max_idx() <= FRAME_SIZE / 2 + 1
        &&& self.chroma_filter().wf()
        &&& self.chroma_filter().zero() == self.zero()
        &&& self.fingerprint_calculator().wf()
        &&& self.fingerprint_calculator().image().zero() == self.zero()
        &&& transforms_frames(self.transform())
        &&& forall|squares: T| #[trigger] call_requires(self.sqrt(), (squares,))
        &&& forall|ratio: T| #[trigger] call_requires(self.ln(), (ratio,))
        &&& adds_freely::<T>()
        &&& subtracts_freely::<T>()
        &&& multiplies_freely::<T>()
        &&& divides_freely::<T>()
    }

    /// Whether what the stages have made follows from the resampled samples,
    /// stage by stage: every spectrum is that of its frame, every chroma row
    /// that of its spectrum, every row of the image that of the chroma rows
    /// that the filter had when it made the row, and every sub-fingerprint
    /// that of the sixteen rows of the image from its own number on.
    pub open spec fn consistent(&self) -> bool {
        let taps = self.chroma_filter().coefficients().len();
        &&& self.spectra().len() <= self.frames().len()
        &&& self.frames().len() <= self.resampled().len()
        &&& forall|i: int|
            0 <= i < self.spectra().len() ==> is_spectrum(
                self.transform(),
                self.frames()[i],
                #[trigger] self.spectra()[i],
            )
        &&& self.chroma_rows().len() == self.spectra().len()
        &&& forall|i: int|
            0 <= i < self.chroma_rows().len() ==> is_chroma_row(
                self.chroma(),
                self.spectra()[i],
                self.zero(),
                #[trigger] self.chroma_rows()[i],
            )
        &&& self.image_rows().len() == if self.chroma_rows().len() < taps {
            0
        } else {
            self.chroma_rows().len() - (taps - 1)
        }
        &&& forall|j: int|
            0 <= j < self.image_rows().len() ==> is_image_row(
                self.sqrt(),
                self.chroma_filter().coefficients(),
                self.zero(),
                self.limit(),
                self.chroma_rows().subrange(j, j + taps),
                #[trigger] self.image_rows()[j],
            )
        &&& forall|k: int|
            0 <= k < self.spec_fingerprint().len() ==> is_subfingerprint(
                self.ln(),
                self.fingerprint_calculator().spec_classifiers(),
                self.fingerprint_calculator().image().integral(),
                self.zero(),
                self.fingerprint_calculator().one(),
                k,
                #[trigger] self.spec_fingerprint()[k],
            )
    }

    /// The state invariant: the stages are set up for each other, what they
    /// have made follows from the resampled samples, and every frame that is
    /// complete has gone through the pipeline.
    pub open spec fn wf(&self) -> bool {
        &&& self.configured()
        &&& self.consistent()
        &&& self.spectra().len() == self.frames().len()
        &&& self.fft().buffered() == remainder(
            self.resampled(),
            FRAME_SIZE as nat,
            FRAME_STRIDE as nat,
        )
    }

    /// Whether `other` is set up like this pipeline.
    pub open spec fn same_setup(&self, other: &Self) -> bool {
        &&& other.chroma() == self.chroma()
        &&& other.chroma_filter().coefficients() == self.chroma_filter().coefficients()
        &&& other.fingerprint_calculator().spec_classifiers()
            == self.fingerprint_calculator().spec_classifiers()
        &&& other.fingerprint_calculator().one() == self.fingerprint_calculator().one()
        &&& other.zero() == self.zero()
        &&& other.limit() == self.limit()
        &&& other.transform() == self.transform()
        &&& other.sqrt() == self.sqrt()
        &&& other.ln() == self.ln()
    }

    /// A pipeline for samples at `sample_rate`.
    ///
    /// The resampler gets the filter bank `taps` of 256 phases with
    /// `filter_length` taps each; `note_for_idx` gives the pitch class of a
    /// bin of the spectrum; the chroma filter gets the coefficients
    /// `filter_coefficients`; `zero`, `one` and `limit` stand for the numbers
    /// 0 and 1 and for the norm below which a chroma row is taken for
    /// silence; `transform`, `sqrt` and `ln` are the transform of a frame,
    /// the square root and the logarithm.
    pub fn new<N: Fn(u32) -> u8>(
        sample_rate: u16,
        filter_length: i32,
        taps: Vec<i16>,
        note_for_idx: N,
        filter_coefficients: Vec<T>,
        classifiers: [(Filter, Quantizer<T>); 16],
        zero: T,
        one: T,
        limit: T,
        transform: F,
        sqrt: S,
        ln: L,
    ) -> (fingerprinter: Self)
        requires
            valid_parameters(TARGET_SAMPLE_RATE, sample_rate, filter_length, taps@.len()),
            gives_notes(
                note_for_idx,
                min_idx_spec(MIN_FREQ, FRAME_SIZE as u32, TARGET_SAMPLE_RATE as u32),
                max_idx_spec(MAX_FREQ, FRAME_SIZE as u32, TARGET_SAMPLE_RATE as u32),
            ),
            1 <= filter_coefficients@.len() <= BUFFER_LENGTH,
            forall|i: int| 0 <= i < 16 ==> fits_image((#[trigger] classifiers[i]).0),
            transforms_frames(transform),
            forall|squares: T| #[trigger] call_requires(sqrt, (squares,)),
            forall|ratio: T| #[trigger] call_requires(ln, (ratio,)),
            adds_freely::<T>(),
            subtracts_freely::<T>(),
            multiplies_freely::<T>(),
            divides_freely::<T>(),
        ensures
            fingerprinter.wf(),
            fingerprinter.resampled() == Seq::<i16>::empty(),
            fingerprinter.spec_fingerprint() == Seq::<u32>::empty(),
            fingerprinter.audio_processor().buffered() == Seq::<i16>::empty(),
            fingerprinter.audio_processor().resampler().filter_length == filter_length,
            fingerprinter.audio_processor().resampler().filter_bank == taps@ + closing_phase(
                taps@,
                filter_length as int,
            ),
            fingerprinter.audio_processor().resampler().src_incr == TARGET_SAMPLE_RATE,
            fingerprinter.audio_processor().resampler().dst_incr == sample_rate
                * RESAMPLE_PHASE_COUNT,
            fingerprinter.audio_processor().resampler().index
                == fingerprinter.audio_processor().resampler().start_index(),
            fingerprinter.audio_processor().resampler().frac == 0,
            forall|idx: int|
                fingerprinter.chroma().spec_note_range().spec_min_idx() <= idx
                    < fingerprinter.chroma().spec_note_range().spec_max_idx() ==> call_ensures(
                    note_for_idx,
                    (idx as u32,),
                    #[trigger] fingerprinter.chroma().spec_note_range().spec_notes()[idx],
                ),
            fingerprinter.chroma_filter().coefficients() == filter_coefficients@,
            fingerprinter.fingerprint_calculator().spec_classifiers() == classifiers,
            fingerprinter.fingerprint_calculator().one() == one,
            fingerprinter.zero() == zero,
            fingerprinter.limit() == limit,
            fingerprinter.transform() == transform,
            fingerprinter.sqrt() == sqrt,
            fingerprinter.ln() == ln,
    {
        let fingerprinter = Fingerprinter {
            audio_processor: AudioProcessor::new(
                TARGET_SAMPLE_RATE,
                sample_rate,
                filter_length,
                taps,
            ),
            fft: Fft::new(FRAME_OVERLAP),
            chroma: Chroma::new(
                MIN_FREQ,
                MAX_FREQ,
                FRAME_SIZE as u32,
                TARGET_SAMPLE_RATE as u32,
                note_for_idx,
            ),
            chroma_filter: ChromaFilter::new(filter_coefficients, zero),
            fingerprint_calculator: FingerprintCalculator::new(classifiers, zero, one),
            zero,
            limit,
            transform,
            sqrt,
            ln,
            resampled: Ghost(Seq::empty()),
            spectra: Ghost(Seq::empty()),
        };
        proof {
            assert(fingerprinter.fft().buffered() =~= remainder(
                fingerprinter.resampled(),
                FRAME_SIZE as nat,
                FRAME_STRIDE as nat,
            ));
        }
        fingerprinter
    }

    /// Takes the power spectrum of the next frame through the stages after
    /// the transform.
    fn handle_spectrum(&mut self, spectrum: Vec<T>)
        requires
            old(self).configured(),
            old(self).consistent(),
            old(self).resampled().len() <= usize::MAX,
            old(self).spectra().len() < old(self).frames().len(),
            is_spectrum(
                old(self).transform(),
                old(self).frames()[old(self).spectra().len() as int],
                spectrum@,
            ),
        ensures
            final(self).configured(),
            final(self).consistent(),
            old(self).same_setup(final(self)),
            final(self).spectra() == old(self).spectra().push(spectrum@),
            final(self).resampled() == old(self).resampled(),
            final(self).fft() == old(self).fft(),
            final(self).audio_processor() == old(self).audio_processor(),
            starts_with_all(final(self).spec_fingerprint(), old(self).spec_fingerprint()),
    {
        let ghost at = self.spectra@.len() as int;
        let ghost taps = self.chroma_filter.coefficients().len();
        let ghost rows_before = self.chroma_filter.history();
        let ghost image_before = self.fingerprint_calculator.image().added();
        let ghost integral_before = self.fingerprint_calculator.image().integral();
        let ghost fingerprint_before = self.fingerprint_calculator.spec_fingerprint();
        proof {
            lemma_window_len(self.resampled@, FRAME_SIZE as nat, FRAME_STRIDE as nat, at);
            self.fingerprint_calculator.image().lemma_integral_len();
        }
        let features = self.chroma.handle_frame(spectrum.as_slice(), self.zero);
        proof {
            self.spectra@ = self.spectra@.push(spectrum@);
        }
        let filtered = self.chroma_filter.handle_features(features);
        proof {
            // The functions of the caller are those that the pipeline started with.
            assert(self.sqrt() == old(self).sqrt());
            assert(forall|squares: T| #[trigger] call_requires(old(self).sqrt(), (squares,)));
            assert(forall|squares: T| #[trigger] call_requires(self.sqrt(), (squares,)));
            assert(self.ln() == old(self).ln());
            assert(forall|ratio: T| #[trigger] call_requires(old(self).ln(), (ratio,)));
            assert(forall|ratio: T| #[trigger] call_requires(self.ln(), (ratio,)));
            assert(self.transform() == old(self).transform());
            assert(transforms_frames(old(self).transform()));
        }
        match filtered {
            Some(row) => {
                let normalized = normalize_vector(row, self.zero, self.limit, &self.sqrt);
                self.fingerprint_calculator.consume(normalized, &self.ln);
                proof {
                    let rows = self.chroma_filter.history();
                    let integral = self.fingerprint_calculator.image().integral();
                    self.fingerprint_calculator.image().lemma_integral_len();
                    assert(starts_with(integral, integral_before)) by {
                        assert(integral.drop_last() == integral_before);
                        assert forall|i: int| 0 <= i < integral_before.len() implies
                            #[trigger] integral[i] == integral_before[i] by {
                            assert(integral.drop_last()[i] == integral[i]);
                        }
                    }
                    assert forall|j: int| 0 <= j < self.image_rows().len() implies is_image_row(
                        self.sqrt(),
                        self.chroma_filter().coefficients(),
                        self.zero(),
                        self.limit(),
                        self.chroma_rows().subrange(j, j + taps),
                        #[trigger] self.image_rows()[j],
                    ) by {
                        if j < image_before.len() {
                            assert(rows.subrange(j, j + taps) =~= rows_before.subrange(
                                j,
                                j + taps,
                            ));
                            assert(self.image_rows()[j] == image_before[j]);
                        } else {
                            assert(rows.subrange(j, j + taps) =~= self.chroma_filter().window());
                            assert(is_weighted(
                                self.chroma_filter().window(),
                                self.chroma_filter().coefficients(),
                                self.zero(),
                                row,
                            ));
                        }
                    }
                    assert forall|k: int|
                        0 <= k < self.spec_fingerprint().len() implies is_subfingerprint(
                        self.ln(),
                        self.fingerprint_calculator().spec_classifiers(),
                        integral,
                        self.zero(),
                        self.fingerprint_calculator().one(),
                        k,
                        #[trigger] self.spec_fingerprint()[k],
                    ) by {
                        if k < fingerprint_before.len() {
                            assert(self.spec_fingerprint().drop_last()[k]
                                == self.spec_fingerprint()[k]);
                            assert(is_subfingerprint(
                                old(self).ln(),
                                old(self).fingerprint_calculator().spec_classifiers(),
                                old(self).fingerprint_calculator().image().integral(),
                                old(self).zero(),
                                old(self).fingerprint_calculator().one(),
                                k,
                                old(self).spec_fingerprint()[k],
                            ));
                            lemma_subfingerprint_of_longer(
                                self.ln(),
                                self.fingerprint_calculator().spec_classifiers(),
                                integral_before,
                                integral,
                                self.zero(),
                                self.fingerprint_calculator().one(),
                                k,
                                fingerprint_before[k],
                            );
                        }
                    }
                }
            },
            None => {},
        }
        proof {
            assert forall|i: int| 0 <= i < self.chroma_rows().len() implies is_chroma_row(
                self.chroma(),
                self.spectra()[i],
                self.zero(),
                #[trigger] self.chroma_rows()[i],
            ) by {
                if i < rows_before.len() {
                    assert(self.chroma_rows()[i] == rows_before[i]);
                    assert(self.spectra()[i] == old(self).spectra()[i]);
                }
            }
            assert forall|i: int| 0 <= i < self.spectra().len() implies is_spectrum(
                self.transform(),
                self.frames()[i],
                #[trigger] self.spectra()[i],
            ) by {
                if i < at {
                    assert(self.spectra()[i] == old(self).spectra()[i]);
                }
            }
        }
    }

    /// A pipeline that differs from a valid one in its resampling stage only
    /// is valid if its resampling stage is.
    proof fn lemma_resampling_apart(&self, other: &Self)
        requires
            self.wf(),
            other.audio_processor().wf(),
            other.fft() == self.fft(),
            other.chroma() == self.chroma(),
            other.chroma_filter() == self.chroma_filter(),
            other.fingerprint_calculator() == self.fingerprint_calculator(),
            other.zero() == self.zero(),
            other.limit() == self.limit(),
            other.transform() == self.transform(),
            other.sqrt() == self.sqrt(),
            other.ln() == self.ln(),
            other.resampled() == self.resampled(),
            other.spectra() == self.spectra(),
        ensures
            other.wf(),
            self.same_setup(other),
    {
        assert(forall|squares: T| #[trigger] call_requires(self.sqrt(), (squares,)));
        assert(forall|squares: T| #[trigger] call_requires(other.sqrt(), (squares,)));
        assert(forall|ratio: T| #[trigger] call_requires(self.ln(), (ratio,)));
        assert(forall|ratio: T| #[trigger] call_requires(other.ln(), (ratio,)));
        assert(transforms_frames(self.transform()));
        assert forall|i: int| 0 <= i < other.spectra().len() implies is_spectrum(
            other.transform(),
            other.frames()[i],
            #[trigger] other.spectra()[i],
        ) by {
            assert(is_spectrum(self.transform(), self.frames()[i], self.spectra()[i]));
        }
        assert forall|i: int| 0 <= i < other.chroma_rows().len() implies is_chroma_row(
            other.chroma(),
            other.spectra()[i],
            other.zero(),
            #[trigger] other.chroma_rows()[i],
        ) by {
            assert(is_chroma_row(
                self.chroma(),
                self.spectra()[i],
                self.zero(),
                self.chroma_rows()[i],
            ));
        }
        assert forall|j: int| 0 <= j < other.image_rows().len() implies is_image_row(
            other.sqrt(),
            other.chroma_filter().coefficients(),
            other.zero(),
            other.limit(),
            other.chroma_rows().subrange(j, j + other.chroma_filter().coefficients().len()),
            #[trigger] other.image_rows()[j],
        ) by {
            assert(is_image_row(
                self.sqrt(),
                self.chroma_filter().coefficients(),
                self.zero(),
                self.limit(),
                self.chroma_rows().subrange(j, j + self.chroma_filter().coefficients().len()),
                self.image_rows()[j],
            ));
        }
        assert forall|k: int| 0 <= k < other.spec_fingerprint().len() implies is_subfingerprint(
            other.ln(),
            other.fingerprint_calculator().spec_classifiers(),
            other.fingerprint_calculator().image().integral(),
            other.zero(),
            other.fingerprint_calculator().one(),
            k,
            #[trigger] other.spec_fingerprint()[k],
        ) by {
            assert(is_subfingerprint(
                self.ln(),
                self.fingerprint_calculator().spec_classifiers(),
                self.fingerprint_calculator().image().integral(),
                self.zero(),
                self.fingerprint_calculator().one(),
                k,
                self.spec_fingerprint()[k],
            ));
        }
    }

    /// Takes a block of resampled samples through the stages after the
    /// resampler: every frame that it completes gives a spectrum, a chroma
    /// row and, once the chroma filter and the calculator have enough rows,
    /// a sub-fingerprint.
    fn handle_resampled(&mut self, samples: Vec<i16>)
        requires
            old(self).wf(),
            old(self).resampled().len() + samples@.len() <= usize::MAX,
        ensures
            final(self).wf(),
            old(self).same_setup(final(self)),
            final(self).resampled() == old(self).resampled() + samples@,
            final(self).audio_processor() == old(self).audio_processor(),
            starts_with_all(final(self).spec_fingerprint(), old(self).spec_fingerprint()),
    {
        let ghost before = self.resampled@;
        let ghost after = before + samples@;
        let ghost held = self.fft.buffered();
        let ghost base = self.spectra@.len() as int;
        let ghost size = FRAME_SIZE as nat;
        let ghost stride = FRAME_STRIDE as nat;
        proof {
            lemma_windows_of_pieces(before, samples@, size, stride);
            lemma_remainder_len(before, size, stride);
            lemma_frames_len(after, size, stride);
            assert(self.transform() == old(self).transform());
            assert(transforms_frames(old(self).transform()));
            assert(transforms_frames(self.transform));
        }
        let spectra = self.fft.consume(samples.as_slice(), &self.transform);
        let ghost cut = spectra@;
        let ghost fft_after = self.fft;
        proof {
            self.resampled@ = after;
            assert forall|i: int| 0 <= i < self.spectra().len() implies is_spectrum(
                self.transform(),
                self.frames()[i],
                #[trigger] self.spectra()[i],
            ) by {
                assert(old(self).frames()[i] == self.frames()[i]);
                assert(is_spectrum(
                    old(self).transform(),
                    old(self).frames()[i],
                    old(self).spectra()[i],
                ));
            }
            assert forall|i: int| 0 <= i < self.chroma_rows().len() implies is_chroma_row(
                self.chroma(),
                self.spectra()[i],
                self.zero(),
                #[trigger] self.chroma_rows()[i],
            ) by {
                assert(is_chroma_row(
                    old(self).chroma(),
                    old(self).spectra()[i],
                    old(self).zero(),
                    old(self).chroma_rows()[i],
                ));
            }
            assert forall|j: int| 0 <= j < self.image_rows().len() implies is_image_row(
                self.sqrt(),
                self.chroma_filter().coefficients(),
                self.zero(),
                self.limit(),
                self.chroma_rows().subrange(j, j + self.chroma_filter().coefficients().len()),
                #[trigger] self.image_rows()[j],
            ) by {
                assert(is_image_row(
                    old(self).sqrt(),
                    old(self).chroma_filter().coefficients(),
                    old(self).zero(),
                    old(self).limit(),
                    old(self).chroma_rows().subrange(
                        j,
                        j + old(self).chroma_filter().coefficients().len(),
                    ),
                    old(self).image_rows()[j],
                ));
            }
            assert forall|k: int|
                0 <= k < self.spec_fingerprint().len() implies is_subfingerprint(
                self.ln(),
                self.fingerprint_calculator().spec_classifiers(),
                self.fingerprint_calculator().image().integral(),
                self.zero(),
                self.fingerprint_calculator().one(),
                k,
                #[trigger] self.spec_fingerprint()[k],
            ) by {
                assert(is_subfingerprint(
                    old(self).ln(),
                    old(self).fingerprint_calculator().spec_classifiers(),
                    old(self).fingerprint_calculator().image().integral(),
                    old(self).zero(),
                    old(self).fingerprint_calculator().one(),
                    k,
                    old(self).spec_fingerprint()[k],
                ));
            }
            assert(self.sqrt() == old(self).sqrt());
            assert(forall|squares: T| #[trigger] call_requires(old(self).sqrt(), (squares,)));
            assert(forall|squares: T| #[trigger] call_requires(self.sqrt(), (squares,)));
            assert(self.ln() == old(self).ln());
            assert(forall|ratio: T| #[trigger] call_requires(old(self).ln(), (ratio,)));
            assert(forall|ratio: T| #[trigger] call_requires(self.ln(), (ratio,)));
        }
        for spectrum in iter: spectra.into_iter()
            invariant
                iter.seq() == cut,
                cut.len() == window_count(held.len() + samples@.len(), size, stride),
                size == FRAME_SIZE,
                stride == FRAME_STRIDE,
                after.len() <= usize::MAX,
                self.configured(),
                self.consistent(),
                old(self).same_setup(&*self),
                self.resampled() == after,
                self.fft() == fft_after,
                self.audio_processor() == old(self).audio_processor(),
                self.spectra().len() == base + iter.index(),
                self.frames() == old(self).frames() + windows(held + samples@, size, stride),
                base == old(self).frames().len(),
                forall|i: int|
                    0 <= i < cut.len() ==> is_spectrum(
                        old(self).transform(),
                        windows(held + samples@, size, stride)[i],
                        (#[trigger] cut[i])@,
                    ),
                starts_with_all(self.spec_fingerprint(), old(self).spec_fingerprint()),
        {
            let ghost at = iter.index() as int;
            let ghost seen = self.spec_fingerprint();
            proof {
                assert(is_spectrum(
                    old(self).transform(),
                    windows(held + samples@, size, stride)[at],
                    cut[at]@,
                ));
                assert(self.frames()[base + at] == windows(held + samples@, size, stride)[at]);
            }
            self.handle_spectrum(spectrum);
            proof {
                assert forall|i: int| 0 <= i < old(self).spec_fingerprint().len() implies
                    #[trigger] self.spec_fingerprint()[i] == old(self).spec_fingerprint()[i] by {
                    assert(seen[i] == old(self).spec_fingerprint()[i]);
                }
            }
        }
    }

    /// Takes more samples of the signal.
    ///
    /// The samples go through the resampler in whole blocks; what is left of
    /// them waits for more. The resampled blocks go through the rest of the
    /// pipeline.
    pub fn feed(&mut self, raw_pcm: &[i16])
        requires
            old(self).wf(),
            raw_pcm@.len() <= usize::MAX - MAX_BUFFER_SIZE,
            old(self).resampled().len() + joined(
                resample_stream(
                    old(self).audio_processor().resampler(),
                    old(self).audio_processor().buffered() + raw_pcm@,
                ).chunks,
            ).len() <= usize::MAX,
        ensures
            final(self).wf(),
            old(self).same_setup(final(self)),
            ({
                let becomes = resample_stream(
                    old(self).audio_processor().resampler(),
                    old(self).audio_processor().buffered() + raw_pcm@,
                );
                &&& final(self).audio_processor().resampler() == becomes.state
                &&& final(self).audio_processor().buffered() == becomes.rest
                &&& final(self).resampled() == old(self).resampled() + joined(becomes.chunks)
            }),
            starts_with_all(final(self).spec_fingerprint(), old(self).spec_fingerprint()),
    {
        let ghost becomes = resample_stream(
            self.audio_processor.resampler(),
            self.audio_processor.buffered() + raw_pcm@,
        );
        let chunks = self.audio_processor.feed(raw_pcm);
        let ghost cut = chunks@;
        let ghost processor = self.audio_processor;
        proof {
            old(self).lemma_resampling_apart(&*self);
            assert(contents(cut).take(0) =~= Seq::<Seq<i16>>::empty());
            assert(self.resampled() + joined(contents(cut).take(0)) =~= self.resampled());
        }
        for chunk in iter: chunks.into_iter()
            invariant
                iter.seq() == cut,
                contents(cut) == becomes.chunks,
                old(self).resampled().len() + joined(becomes.chunks).len() <= usize::MAX,
                self.wf(),
                old(self).same_setup(&*self),
                self.audio_processor() == processor,
                self.resampled() == old(self).resampled() + joined(
                    contents(cut).take(iter.index() as int),
                ),
                starts_with_all(self.spec_fingerprint(), old(self).spec_fingerprint()),
        {
            let ghost at = iter.index() as int;
            let ghost seen = self.spec_fingerprint();
            let ghost so_far = self.resampled();
            proof {
                lemma_joined_take(contents(cut), at);
                assert(contents(cut)[at] == chunk@);
            }
            self.handle_resampled(chunk);
            proof {
                assert(self.resampled() =~= old(self).resampled() + joined(
                    contents(cut).take(at + 1),
                ));
                assert forall|i: int| 0 <= i < old(self).spec_fingerprint().len() implies
                    #[trigger] self.spec_fingerprint()[i] == old(self).spec_fingerprint()[i] by {
                    assert(seen[i] == old(self).spec_fingerprint()[i]);
                }
            }
        }
        proof {
            assert(contents(cut).take(cut.len() as int) =~= contents(cut));
        }
    }

    /// Ends the signal: the samples that still wait for the resampler go
    /// through it as a last block, which may be short, and through the rest
    /// of the pipeline.
    pub fn finish(&mut self)
        requires
            old(self).wf(),
            old(self).resampled().len() + MAX_BUFFER_SIZE <= usize::MAX,
        ensures
            final(self).wf(),
            old(self).same_setup(final(self)),
            final(self).audio_processor().buffered() == Seq::<i16>::empty(),
            old(self).audio_processor().buffered().len() == 0 ==> {
                &&& final(self).resampled() == old(self).resampled()
                &&& final(self).audio_processor().resampler() == old(
                    self,
                ).audio_processor().resampler()
                &&& final(self).spec_fingerprint() == old(self).spec_fingerprint()
            },
            old(self).audio_processor().buffered().len() > 0 ==> {
                &&& final(self).resampled() == old(self).resampled() + resample_block(
                    old(self).audio_processor().resampler(),
                    old(self).audio_processor().buffered(),
                )
                &&& final(self).audio_processor().resampler() == state_after_block(
                    old(self).audio_processor().resampler(),
                    old(self).audio_processor().buffered().len(),
                )
            },
            starts_with_all(final(self).spec_fingerprint(), old(self).spec_fingerprint()),
    {
        let last = self.audio_processor.flush();
        proof {
            old(self).lemma_resampling_apart(&*self);
        }
        match last {
            Some(last_samples) => {
                proof {
                    old(self).audio_processor().resampler().lemma_produced_from(
                        old(self).audio_processor().buffered().len() as int,
                        MAX_BUFFER_SIZE as int,
                        0,
                    );
                }
                self.handle_resampled(last_samples);
            },
            None => {},
        }
    }

    /// The sub-fingerprints so far.
    pub fn fingerprint(&self) -> (fingerprint: Fingerprint<'_>)
        requires
            self.wf(),
        ensures
            fingerprint.0@ == self.spec_fingerprint(),
    {
        Fingerprint(self.fingerprint_calculator.fingerprint())
    }

    /// The number of sub-fingerprints follows from the number of resampled
    /// samples alone, for a chroma filter of `CHROMA_FILTER_LENGTH` taps.
    pub proof fn lemma_fingerprint_len_of_samples(&self)
        requires
            self.wf(),
            self.chroma_filter().coefficients().len() == CHROMA_FILTER_LENGTH,
        ensures
            self.spec_fingerprint().len() == fingerprint_len(self.resampled().len()),
    {
    }
}

/// Whether `longer` starts with the elements of `shorter`.
pub open spec fn starts_with_all<A>(longer: Seq<A>, shorter: Seq<A>) -> bool {
    &&& shorter.len() <= longer.len()
    &&& forall|i: int| 0 <= i < shorter.len() ==> #[trigger] longer[i] == shorter[i]
}

} // verus!
