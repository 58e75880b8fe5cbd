use chromaprint::audio_processor::AudioProcessor;
use chromaprint::audio_processor::RESAMPLE_CUTOFF;
use chromaprint::audio_processor::RESAMPLE_CUTOFF_SCALE;
use chromaprint::chroma::Chroma;
use chromaprint::chroma_filter::ChromaFilter;
use chromaprint::chroma_normalize::normalize_vector;
use chromaprint::classifiers::get_default_classifier;
use chromaprint::classifiers::THRESHOLD_SCALE;
use chromaprint::fft::fold_output;
use chromaprint::fft::FRAME_SIZE;
use chromaprint::filter::Filter;
use chromaprint::fingerprint_calculator::FingerprintCalculator;
use chromaprint::fingerprinter::chroma_filter_coefficients;
use chromaprint::fingerprinter::CompressedFingerprint;
use chromaprint::fingerprinter::CHROMA_FILTER_SCALE;
use chromaprint::fingerprinter::NORM_LIMIT;
use chromaprint::fingerprinter::NORM_LIMIT_SCALE;
use chromaprint::fingerprinter::Fingerprint;
use chromaprint::fingerprinter::Fingerprinter;
use chromaprint::fingerprinter::FRAME_OVERLAP;
use chromaprint::fingerprinter::FRAME_STRIDE;
use chromaprint::quantizer::Quantizer;
use chromaprint::slicer::FixedSlicer;
use rustfft::algorithm::Radix4;
use rustfft::num_complex::Complex;
use rustfft::FFT;
use std::f64::consts::PI;

#[test]
fn compresses_for_algorithm_one() {
    let compressed = Fingerprint(&[1, 1]).compress();
    assert_eq!(compressed.0, vec![1, 0, 0, 2, 1, 0]);
}

#[test]
fn empty_fingerprint_is_a_header_of_length_zero() {
    let compressed = Fingerprint(&[]).compress();
    assert_eq!(compressed.0, vec![1, 0, 0, 0]);
    assert_eq!(compressed.encode(), "AQAAAA");
}

#[test]
fn text_of_a_short_fingerprint_names_the_algorithm_and_the_length() {
    let fingerprint: Vec<u32> = (0..11u32).map(|i| i.wrapping_mul(0x9e37_79b9)).collect();
    let text = Fingerprint(&fingerprint).compress().encode();
    assert!(text.starts_with("AQAAC"));
}

#[test]
fn encodes_what_it_holds() {
    assert_eq!(CompressedFingerprint(vec![1, 0, 0, 1, 1]).encode(), "AQAAAQE");
}

#[test]
fn frames_overlap_by_two_thirds() {
    assert_eq!(FRAME_SIZE, 4096);
    assert_eq!(FRAME_OVERLAP, 2731);
    assert_eq!(FRAME_STRIDE, 1365);
}

// A pipeline in whole numbers: the samples themselves stand for the bins of
// their transform, and the functions of real numbers are rounded.

fn whole_transform(frame: Vec<i16>) -> Vec<(i64, i64)> {
    frame.iter().enumerate().map(|(idx, sample)| (*sample as i64, (idx % 3) as i64)).collect()
}

fn whole_sqrt(squares: i64) -> i64 {
    (squares as f64).sqrt() as i64 / 50 + 1
}

fn whole_ln(ratio: i64) -> i64 {
    ratio
}

fn whole_note(idx: u32) -> u8 {
    ((idx * 7) % 12) as u8
}

fn whole_classifiers() -> [(Filter, Quantizer<i64>); 16] {
    get_default_classifier().map(|(filter, _)| (filter, Quantizer::new(1, 2, 3)))
}

/// A bank of 256 phases whose filters average two samples.
fn whole_bank() -> Vec<i16> {
    vec![16384; 2 * 256]
}

fn signal(len: usize) -> Vec<i16> {
    (0..len).map(|i| ((i * i / 7 + i * 13) % 41) as i16 - 20).collect()
}

type WholePipeline =
    Fingerprinter<i64, fn(Vec<i16>) -> Vec<(i64, i64)>, fn(i64) -> i64, fn(i64) -> i64>;

fn whole_pipeline() -> WholePipeline {
    Fingerprinter::new(
        11025,
        2,
        whole_bank(),
        whole_note,
        vec![1, 2, 3, 2, 1],
        whole_classifiers(),
        0,
        1,
        1,
        whole_transform,
        whole_sqrt,
        whole_ln,
    )
}

/// The stages of the pipeline, one after the other, on the whole signal.
/// Returns the number of resampled samples and the sub-fingerprints.
fn stage_by_stage(samples: &[i16]) -> (usize, Vec<u32>) {
    let mut processor = AudioProcessor::new(11025, 11025, 2, whole_bank());
    let mut resampled: Vec<i16> = processor.feed(samples).concat();
    if let Some(last) = processor.flush() {
        resampled.extend(last);
    }
    let mut frames = FixedSlicer::new(FRAME_SIZE, FRAME_STRIDE);
    let chroma = Chroma::new(28, 3520, 4096, 11025, whole_note);
    let mut chroma_filter = ChromaFilter::new(vec![1i64, 2, 3, 2, 1], 0);
    let mut calculator = FingerprintCalculator::new(whole_classifiers(), 0, 1);
    for frame in frames.process(&resampled) {
        let spectrum = fold_output(&whole_transform(frame));
        let features = chroma.handle_frame(&spectrum, 0);
        if let Some(filtered) = chroma_filter.handle_features(features) {
            let normalized = normalize_vector(filtered, 0, 1, &whole_sqrt);
            calculator.consume(normalized, &whole_ln);
        }
    }
    (resampled.len(), calculator.fingerprint().to_vec())
}

#[test]
fn pipeline_gives_what_its_stages_give() {
    let samples = signal(90_000);
    let mut pipeline = whole_pipeline();
    pipeline.feed(&samples);
    pipeline.finish();
    let (_, expected) = stage_by_stage(&samples);
    assert!(!expected.is_empty());
    assert_eq!(pipeline.fingerprint().0, &expected[..]);
}

#[test]
fn pipeline_takes_the_signal_in_pieces() {
    let samples = signal(90_000);
    let mut whole = whole_pipeline();
    whole.feed(&samples);
    whole.finish();
    for piece in [1usize, 1365, 4096, 32768, 50_000] {
        let mut pieces = whole_pipeline();
        for part in samples.chunks(piece.max(977)) {
            pieces.feed(part);
        }
        pieces.finish();
        assert_eq!(pieces.fingerprint().0, whole.fingerprint().0);
    }
}

#[test]
fn number_of_subfingerprints_follows_from_the_number_of_samples() {
    for len in [0usize, 4096, 30_000, 30_030, 31_395, 40_000, 70_000] {
        let samples = signal(len);
        let mut pipeline = whole_pipeline();
        pipeline.feed(&samples);
        pipeline.finish();
        let (resampled, _) = stage_by_stage(&samples);
        let expected = if resampled < FRAME_SIZE + 19 * FRAME_STRIDE {
            0
        } else {
            (resampled - FRAME_SIZE) / FRAME_STRIDE - 18
        };
        assert_eq!(pipeline.fingerprint().0.len(), expected);
    }
}

#[test]
fn too_few_samples_give_no_subfingerprint() {
    let mut pipeline = whole_pipeline();
    pipeline.feed(&signal(20_000));
    pipeline.finish();
    assert!(pipeline.fingerprint().0.is_empty());
    assert_eq!(pipeline.fingerprint().compress().encode(), "AQAAAA");
}

#[test]
fn earlier_subfingerprints_stay() {
    let samples = signal(120_000);
    let mut pipeline = whole_pipeline();
    let mut seen: Vec<u32> = Vec::new();
    for part in samples.chunks(10_000) {
        pipeline.feed(part);
        let now = pipeline.fingerprint().0.to_vec();
        assert!(now.len() >= seen.len());
        assert_eq!(now[..seen.len()], seen[..]);
        seen = now;
    }
    assert!(seen.len() > 40);
}

// The pipeline in floating point, with a Fourier transform under a Hamming
// window and a resampling filter made of a sinc under a Kaiser window.

fn bessel(x: f64) -> f64 {
    let mut v = 1.0f64;
    let mut last_v = 0.0f64;
    let mut t = 1.0f64;
    let x = x * x / 4.0;
    let mut i = 1u32;
    while v != last_v {
        last_v = v;
        t *= x / ((i as f64) * (i as f64));
        v += t;
        i += 1;
    }
    v
}

fn filter_bank(factor: f64, tap_count: usize, phase_count: usize) -> Vec<i16> {
    let mut filter = vec![0i16; tap_count * phase_count];
    let mut tab = vec![0.0f64; tap_count];
    let center = (tap_count as i64 - 1) / 2;
    for phase in 0..phase_count {
        let mut norm = 0.0;
        for i in 0..tap_count {
            let x = PI * ((i as i64 - center) as f64 - phase as f64 / phase_count as f64) * factor;
            let mut y = if x == 0.0 { 1.0 } else { x.sin() / x };
            let w = 2.0 * x / (factor * (tap_count as f64) * PI);
            y *= bessel(9.0 * (1.0 - w * w).max(0.0).sqrt());
            tab[i] = y;
            norm += y;
        }
        for i in 0..tap_count {
            let tap = (tab[i] * 32768.0 / norm).floor();
            filter[phase * tap_count + i] = tap.max(-32768.0).min(32767.0) as i16;
        }
    }
    filter
}

fn note_of_bin(idx: u32) -> u8 {
    let frequency = idx as f64 * (11025.0 / 4096.0);
    let octave = (frequency / (440f64 / 16f64)).log2();
    (12f64 * (octave - octave.floor())) as u8
}

fn spectrum_of(frame: Vec<i16>) -> Vec<(f64, f64)> {
    let size = frame.len();
    let fft: Radix4<f64> = Radix4::new(size, false);
    let mut input: Vec<Complex<f64>> = frame
        .into_iter()
        .enumerate()
        .map(|(idx, sample)| {
            let window = 0.54 - 0.46 * (idx as f64 * 2.0 * PI / (size as f64 - 1.0)).cos();
            Complex::new(window / i16::MAX as f64 * sample as f64, 0.0)
        })
        .collect();
    let mut output = vec![Complex::new(0.0, 0.0); size];
    fft.process(&mut input, &mut output);
    output.iter().map(|bin| (bin.re, bin.im)).collect()
}

type RealPipeline =
    Fingerprinter<f64, fn(Vec<i16>) -> Vec<(f64, f64)>, fn(f64) -> f64, fn(f64) -> f64>;

fn real_pipeline(sample_rate: u16) -> RealPipeline {
    let factor = (11025.0 * 0.8 / sample_rate as f64).min(1.0);
    let filter_length = ((16.0 / factor).ceil() as i32).max(1);
    let scale = THRESHOLD_SCALE as f64;
    let classifiers = get_default_classifier().map(|(filter, quantizer)| {
        (
            filter,
            Quantizer::new(
                quantizer.t0() as f64 / scale,
                quantizer.t1() as f64 / scale,
                quantizer.t2() as f64 / scale,
            ),
        )
    });
    Fingerprinter::new(
        sample_rate,
        filter_length,
        filter_bank(factor, filter_length as usize, 256),
        note_of_bin,
        vec![0.25, 0.75, 1.0, 0.75, 0.25],
        classifiers,
        0.0,
        1.0,
        0.01,
        spectrum_of,
        f64::sqrt,
        f64::ln,
    )
}

/// Eight seconds of a tune of three voices at 44100 samples a second.
fn tune() -> Vec<i16> {
    (0..8 * 44100usize)
        .map(|i| {
            let t = i as f64 / 44100.0;
            let step = (t * 2.0) as usize % 8;
            let base = 220.0 * 2f64.powf([0.0, 2.0, 4.0, 5.0, 7.0, 9.0, 11.0, 12.0][step] / 12.0);
            let voice = (2.0 * PI * base * t).sin()
                + 0.5 * (2.0 * PI * base * 1.5 * t).sin()
                + 0.25 * (2.0 * PI * base * 2.0 * t).sin();
            (voice * 8000.0) as i16
        })
        .collect()
}

#[test]
fn fingerprint_of_a_tune() {
    let samples = tune();
    let mut pipeline = real_pipeline(44100);
    pipeline.feed(&samples);
    pipeline.finish();
    let fingerprint = pipeline.fingerprint();
    // Eight seconds are about 64 frames after the first.
    assert!(fingerprint.0.len() > 35 && fingerprint.0.len() < 50);
    assert!(fingerprint.0.iter().any(|bits| *bits != fingerprint.0[0]));
    let text = fingerprint.compress().encode();
    assert!(text.starts_with("AQAA"));
    assert!(text.bytes().all(|c| c.is_ascii_alphanumeric() || c == b'-' || c == b'_'));
}

#[test]
fn fingerprint_of_a_tune_does_not_depend_on_the_pieces() {
    let samples = tune();
    let mut whole = real_pipeline(44100);
    whole.feed(&samples);
    whole.finish();
    let mut pieces = real_pipeline(44100);
    for part in samples.chunks(12_345) {
        pieces.feed(part);
    }
    pieces.finish();
    assert_eq!(whole.fingerprint().0, pieces.fingerprint().0);
    assert_eq!(
        whole.fingerprint().compress().encode(),
        pieces.fingerprint().compress().encode()
    );
}

#[test]
fn fingerprint_of_silence_is_the_same_all_along() {
    let mut pipeline = real_pipeline(11025);
    pipeline.feed(&vec![0i16; 60_000]);
    pipeline.finish();
    let fingerprint = pipeline.fingerprint();
    assert!(!fingerprint.0.is_empty());
    // Silence makes every row of the image zero and every answer the
    // logarithm of one: all sub-fingerprints are the same.
    assert!(fingerprint.0.iter().all(|bits| *bits == fingerprint.0[0]));
}

#[test]
fn numbers_of_the_pipeline() {
    let coefficients: Vec<f64> = chroma_filter_coefficients()
        .iter()
        .map(|coefficient| *coefficient as f64 / CHROMA_FILTER_SCALE as f64)
        .collect();
    assert_eq!(coefficients, vec![0.25, 0.75, 1.0, 0.75, 0.25]);
    assert_eq!(NORM_LIMIT as f64 / NORM_LIMIT_SCALE as f64, 0.01);
    assert_eq!(RESAMPLE_CUTOFF as f64 / RESAMPLE_CUTOFF_SCALE as f64, 0.8);
}
