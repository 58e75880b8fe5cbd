use chromaprint::audio_processor::AudioProcessor;
use chromaprint::audio_processor::ResampleStage;
use chromaprint::audio_processor::MAX_BUFFER_SIZE;
use chromaprint::resampler::Resampler;

/// A bank of 256 phases whose filters all pick the sample in the middle of
/// the window at half its value.
fn bank(filter_length: usize) -> Vec<i16> {
    let mut taps = vec![0i16; filter_length * 256];
    for phase in 0..256 {
        taps[phase * filter_length + (filter_length - 1) / 2] = 16384;
    }
    taps
}

#[test]
fn accepts_the_rates_of_the_pipeline() {
    assert!(AudioProcessor::accepts(11025, 44100, 80, 80 * 256));
    assert!(AudioProcessor::accepts(11025, 11025, 20, 20 * 256));
    assert!(AudioProcessor::accepts(11025, 8000, 16, 16 * 256));
}

#[test]
fn refuses_rates_and_banks_that_do_not_fit() {
    assert!(!AudioProcessor::accepts(0, 44100, 80, 80 * 256));
    assert!(!AudioProcessor::accepts(11025, 0, 80, 80 * 256));
    assert!(!AudioProcessor::accepts(11025, 44100, 0, 0));
    assert!(!AudioProcessor::accepts(11025, 44100, 80, 80 * 256 + 1));
    assert!(!AudioProcessor::accepts(11025, 44100, 32769, 32769 * 256));
    // A step of four samples needs a filter of more than four taps.
    assert!(!AudioProcessor::accepts(11025, 44100, 4, 4 * 256));
    assert!(AudioProcessor::accepts(11025, 44100, 5, 5 * 256));
    // At one sample a second a block never gets past the first sample.
    assert!(!AudioProcessor::accepts(11025, 1, 16, 16 * 256));
}

#[test]
fn keeps_less_than_a_block_for_later() {
    let mut processor = AudioProcessor::new(11025, 44100, 80, bank(80));
    let chunks = processor.feed(&[1i16; 1000]);
    assert!(chunks.is_empty());
    let chunks = processor.feed(&[1i16; 31767]);
    assert!(chunks.is_empty());
    let chunks = processor.feed(&[1i16; 1]);
    assert_eq!(chunks.len(), 1);
}

#[test]
fn resamples_block_by_block() {
    let mut processor = AudioProcessor::new(11025, 44100, 80, bank(80));
    let data: Vec<i16> = (0..40000).map(|i| (i % 1000) as i16 * 2).collect();
    let chunks = processor.feed(&data);
    assert_eq!(chunks.len(), 1);
    assert_eq!(chunks[0].len(), 8182);
    // Output k is centred on input 4 k: the window starts 39 samples before.
    for k in 10..8182usize {
        assert_eq!(chunks[0][k], data[4 * k] / 2);
    }
    let last = processor.flush().unwrap();
    assert_eq!(last.len(), 1808);
    for k in 0..1808usize {
        assert_eq!(last[k], data[32689 + 39 + 4 * k] / 2);
    }
    assert_eq!(processor.flush(), None);
}

#[test]
fn flush_of_nothing_is_nothing() {
    let mut processor = AudioProcessor::new(11025, 44100, 80, bank(80));
    assert_eq!(processor.flush(), None);
}

#[test]
fn flush_of_too_little_gives_one_silent_sample() {
    let mut processor = AudioProcessor::new(11025, 44100, 80, bank(80));
    assert!(processor.feed(&[5i16; 10]).is_empty());
    assert_eq!(processor.flush(), Some(vec![0]));
}

#[test]
fn pieces_give_what_the_whole_gives() {
    let data: Vec<i16> = (0..70000).map(|i| ((i * 7) % 2000) as i16 - 1000).collect();
    let mut whole = AudioProcessor::new(11025, 44100, 80, bank(80));
    let mut expected: Vec<i16> = whole.feed(&data).concat();
    expected.extend(whole.flush().unwrap());

    let mut pieces = AudioProcessor::new(11025, 44100, 80, bank(80));
    let mut got: Vec<i16> = Vec::new();
    for piece in data.chunks(4321) {
        got.extend(pieces.feed(piece).concat());
    }
    got.extend(pieces.flush().unwrap());
    assert_eq!(expected, got);
}

#[test]
fn resample_slice_gives_the_consumed_samples_and_the_block() {
    let resampler = Resampler::new(1, 1, 0, 2, vec![16384, 16384]);
    let mut stage = ResampleStage { resampler, chunks: Vec::new() };
    let (consumed, block) = stage.resample_slice(vec![100, 200, 400, -100]);
    assert_eq!(consumed, 3);
    assert_eq!(block, vec![150, 300, 150]);
    assert!(stage.chunks.is_empty());
    assert_eq!(MAX_BUFFER_SIZE, 32768);
}
