use chromaprint::chroma::freq_to_idx;
use chromaprint::chroma::Chroma;
use chromaprint::chroma::NoteRange;

fn idx_to_freq(idx: u32, frame_size: u32, sample_rate: u32) -> f64 {
    let frequency_per_size = (sample_rate as f64) / (frame_size as f64);
    idx as f64 * frequency_per_size
}

fn note_from_freq(frequency: f64) -> u8 {
    let octave = (frequency / (440f64 / 16f64)).log2();
    (12f64 * (octave - octave.floor())) as u8
}

/// The pitch classes of the bins of a frame of 4096 samples at 11025 Hz, as
/// runs of equal entries: the value and how often it repeats.
fn expected_note_runs() -> Vec<(u8, usize)> {
    vec![
        (0, 10), (11, 1), (1, 1), (2, 1), (4, 1), (5, 1), (6, 1), (7, 1),
        (8, 1), (9, 1), (10, 1), (11, 1), (0, 1), (1, 1), (2, 2), (3, 1),
        (4, 2), (5, 1), (6, 2), (7, 2), (8, 2), (9, 2), (10, 2), (11, 2),
        (0, 3), (1, 2), (2, 3), (3, 3), (4, 3), (5, 3), (6, 4), (7, 3),
        (8, 4), (9, 4), (10, 5), (11, 4), (0, 5), (1, 5), (2, 6), (3, 5),
        (4, 7), (5, 6), (6, 7), (7, 7), (8, 8), (9, 8), (10, 9), (11, 9),
        (0, 10), (1, 10), (2, 11), (3, 11), (4, 13), (5, 13), (6, 13), (7, 15),
        (8, 15), (9, 17), (10, 17), (11, 18), (0, 20), (1, 20), (2, 22), (3, 23),
        (4, 25), (5, 26), (6, 27), (7, 29), (8, 31), (9, 33), (10, 35), (11, 36),
        (0, 39), (1, 41), (2, 44), (3, 46), (4, 49), (5, 52), (6, 55), (7, 58),
        (8, 62), (9, 66), (10, 69), (11, 73), (0, 2788),
    ]
}

fn expected_notes() -> Vec<u8> {
    let mut notes = Vec::new();
    for (note, count) in expected_note_runs() {
        for _ in 0..count {
            notes.push(note);
        }
    }
    notes
}

fn small_chroma() -> Chroma {
    Chroma::new(10, 510, 256, 1000, |idx| note_from_freq(idx_to_freq(idx, 256, 1000)))
}

#[test]
fn chroma_normal_a() {
    let chroma = small_chroma();
    let mut frame = [0.0f64; 128];
    frame[113] = 1.0;

    assert_eq!(
        chroma.handle_frame(&frame, 0.0),
        [1.0, 0.0, 0.0, 0.0, 0.0, 0.0, 0.0, 0.0, 0.0, 0.0, 0.0, 0.0]
    );
}

#[test]
fn chroma_normal_g_sharp() {
    let chroma = small_chroma();
    let mut frame = [0.0f64; 128];
    frame[112] = 1.0;

    assert_eq!(
        chroma.handle_frame(&frame, 0.0),
        [0.0, 0.0, 0.0, 0.0, 0.0, 0.0, 0.0, 0.0, 0.0, 0.0, 0.0, 1.0,]
    );
}

#[test]
fn chroma_normal_b() {
    let chroma = small_chroma();
    let mut frame = [0.0f64; 128];
    frame[64] = 1.0;

    assert_eq!(
        chroma.handle_frame(&frame, 0.0),
        [0.0, 0.0, 1.0, 0.0, 0.0, 0.0, 0.0, 0.0, 0.0, 0.0, 0.0, 0.0,]
    );
}

#[test]
fn chroma_adds_the_bins_of_a_pitch_class() {
    let chroma = Chroma::new(0, 8, 16, 16, |idx| (idx % 3) as u8);
    let frame: Vec<u32> = (0..16).map(|idx| 1 << idx).collect();
    // Bins 1 to 7 take part; bin 0 and the bins from 8 on do not.
    let folded = chroma.handle_frame(&frame, 0u32);
    assert_eq!(
        folded,
        [
            (1 << 3) + (1 << 6),
            (1 << 1) + (1 << 4) + (1 << 7),
            (1 << 2) + (1 << 5),
            0,
            0,
            0,
            0,
            0,
            0,
            0,
            0,
            0
        ]
    );
}

#[test]
fn chroma_of_a_single_bin_has_a_single_entry() {
    let chroma = small_chroma();
    let notes = chroma.note_range().notes().to_vec();
    for bin in 3..128usize {
        let mut frame = [0i64; 129];
        frame[bin] = 1000 + bin as i64;
        let folded = chroma.handle_frame(&frame, 0);
        for note in 0..12usize {
            let expected = if notes[bin] as usize == note { 1000 + bin as i64 } else { 0 };
            assert_eq!(folded[note], expected);
        }
    }
}

#[test]
fn chroma_of_bins_that_take_no_part_is_empty() {
    let chroma = small_chroma();
    let mut frame = [0.0f64; 129];
    frame[0] = 5.0;
    frame[2] = 5.0;
    frame[128] = 5.0;
    assert_eq!(chroma.handle_frame(&frame, 0.0), [0.0; 12]);
}

#[test]
fn test_freq_to_idx() {
    assert_eq!(freq_to_idx(3520, 4096, 11025), 1308);
}

#[test]
fn test_notes_freq() {
    const MIN_FREQ: u32 = 28;
    const MAX_FREQ: u32 = 3520;
    const DEFAULT_SAMPLE_RATE: u32 = 11025;
    const FRAME_SIZE: u32 = 4096;

    let note_range = NoteRange::new(MIN_FREQ, MAX_FREQ, FRAME_SIZE, DEFAULT_SAMPLE_RATE, |idx| {
        note_from_freq(idx_to_freq(idx, FRAME_SIZE, DEFAULT_SAMPLE_RATE))
    });
    assert_eq!(&expected_notes()[..], note_range.notes());
}

#[test]
fn freq_to_idx_rounds_to_nearest() {
    assert_eq!(freq_to_idx(28, 4096, 11025), 10);
    assert_eq!(freq_to_idx(10, 256, 1000), 3);
    assert_eq!(freq_to_idx(510, 256, 1000), 131);
    assert_eq!(freq_to_idx(0, 4096, 11025), 0);
}

#[test]
fn freq_to_idx_rounds_halves_up() {
    assert_eq!(freq_to_idx(1, 1, 2), 1);
    assert_eq!(freq_to_idx(3, 1, 2), 2);
    assert_eq!(freq_to_idx(1, 1, 4), 0);
}

#[test]
fn freq_to_idx_saturates() {
    assert_eq!(freq_to_idx(u32::MAX, u32::MAX, 1), u32::MAX);
    assert_eq!(freq_to_idx(u32::MAX, 2, 1), u32::MAX);
}

#[test]
fn note_range_limits() {
    let range = NoteRange::new(28, 3520, 4096, 11025, |_| 5);
    assert_eq!(range.min_idx(), 10);
    assert_eq!(range.max_idx(), 1308);
    assert_eq!(range.notes().len(), 4096);
    assert_eq!(range.notes()[9], 0);
    assert_eq!(range.notes()[10], 5);
    assert_eq!(range.notes()[1307], 5);
    assert_eq!(range.notes()[1308], 0);
}

#[test]
fn note_range_keeps_bin_zero_out() {
    let range = NoteRange::new(0, 1000, 16, 16, |_| 3);
    assert_eq!(range.min_idx(), 1);
    assert_eq!(range.max_idx(), 8);
    assert_eq!(range.notes(), &[0, 3, 3, 3, 3, 3, 3, 3, 0, 0, 0, 0, 0, 0, 0, 0][..]);
}

#[test]
fn note_range_may_be_empty() {
    let range = NoteRange::new(3000, 100, 256, 1000, |_| 7);
    assert!(range.max_idx() <= range.min_idx());
    assert!(range.notes().iter().all(|note| *note == 0));
}

#[test]
fn note_range_asks_for_each_bin_in_turn() {
    let range = NoteRange::new(10, 510, 256, 1000, |idx| (idx % 12) as u8);
    assert_eq!(range.min_idx(), 3);
    assert_eq!(range.max_idx(), 128);
    for idx in 3..128usize {
        assert_eq!(range.notes()[idx], (idx % 12) as u8);
    }
}

#[test]
fn chroma_table_of_a_small_frame() {
    let chroma = Chroma::new(10, 510, 256, 1000, |idx| {
        note_from_freq(idx_to_freq(idx, 256, 1000))
    });
    let notes = chroma.note_range().notes();
    assert_eq!(notes[113], 0);
    assert_eq!(notes[112], 11);
    assert_eq!(notes[64], 2);
}
