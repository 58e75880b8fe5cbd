use chromaprint::fingerprint_compressor::compress;

#[test]
fn one_item_one_bit() {
    assert_eq!(compress(&[1], 0), [0, 0, 0, 1, 1]);
}

#[test]
fn one_item_three_bits() {
    assert_eq!(compress(&[7], 0), [0, 0, 0, 1, 73, 0]);
}

#[test]
fn one_item_one_bit_except() {
    assert_eq!(compress(&[1 << 6], 0), [0, 0, 0, 1, 7, 0]);
}

#[test]
fn one_item_one_bit_except_2() {
    assert_eq!(compress(&[1 << 8], 0), [0, 0, 0, 1, 7, 2]);
}

#[test]
fn two_items() {
    assert_eq!(compress(&[1, 0], 0), [0, 0, 0, 2, 65, 0]);
}

#[test]
fn two_items_no_change() {
    assert_eq!(compress(&[1, 1], 0), [0, 0, 0, 2, 1, 0]);
}

use chromaprint::fingerprint_compressor::process_subfingerprint;
use chromaprint::fingerprint_compressor::write_header;

/// The symbols of a fingerprint, counted bit by bit: one normal symbol for
/// every set bit of every difference and one more to end it, and one
/// exceptional symbol for every gap of seven and more.
fn count_symbols(fingerprint: &[u32]) -> (usize, usize) {
    let mut normal = 0;
    let mut exceptional = 0;
    let mut previous = 0u32;
    for (i, value) in fingerprint.iter().enumerate() {
        let difference = if i == 0 { *value } else { *value ^ previous };
        previous = *value;
        let mut last = 0;
        for bit in 1..=32 {
            if difference & (1 << (bit - 1)) != 0 {
                normal += 1;
                if bit - last >= 7 {
                    exceptional += 1;
                }
                last = bit;
            }
        }
        normal += 1;
    }
    (normal, exceptional)
}

fn sample_fingerprints() -> Vec<Vec<u32>> {
    let mut samples = vec![
        vec![],
        vec![0],
        vec![u32::MAX],
        vec![1 << 31],
        vec![0x8000_0001, 0x0100_0040, 0xffff_0000],
    ];
    let mut state = 0x1234_5678u32;
    let mut long = Vec::new();
    for _ in 0..300 {
        state = state.wrapping_mul(1_664_525).wrapping_add(1_013_904_223);
        long.push(state & (state >> 3));
    }
    samples.push(long);
    samples
}

#[test]
fn empty_fingerprint_is_a_bare_header() {
    assert_eq!(compress(&[], 1), [1, 0, 0, 0]);
}

#[test]
fn header_holds_the_algorithm_and_the_count() {
    let fingerprint = vec![0u32; 0x01_02_03];
    let compressed = compress(&fingerprint, 9);
    assert_eq!(compressed[..4], [9, 1, 2, 3]);
}

#[test]
fn length_follows_from_the_numbers_of_symbols() {
    for fingerprint in sample_fingerprints() {
        let (normal, exceptional) = count_symbols(&fingerprint);
        let compressed = compress(&fingerprint, 1);
        assert_eq!(
            compressed.len(),
            4 + (3 * normal + 7) / 8 + (5 * exceptional + 7) / 8
        );
    }
}

#[test]
fn compressing_twice_gives_the_same_bytes() {
    for fingerprint in sample_fingerprints() {
        assert_eq!(compress(&fingerprint, 1), compress(&fingerprint, 1));
    }
}

#[test]
fn exceptional_symbols_start_at_a_whole_byte() {
    // One set bit at position 32: the gap 32 is the normal symbol 7 and the
    // exceptional symbol 25; the closing zero follows in the normal stream.
    assert_eq!(compress(&[1 << 31], 0), [0, 0, 0, 1, 7, 25]);
    // Gaps 7, 7, 7, 7 and 4: four exceptional symbols of zero.
    assert_eq!(
        compress(&[(1 << 6) | (1 << 13) | (1 << 20) | (1 << 27) | (1 << 31)], 0),
        [0, 0, 0, 1, 0xff, 0x4f, 0, 0, 0, 0]
    );
}

#[test]
fn all_bits_set_is_a_run_of_ones() {
    // 32 gaps of one and the closing zero: 33 symbols of three bits.
    let compressed = compress(&[u32::MAX], 0);
    assert_eq!(
        compressed,
        [0, 0, 0, 1, 0x49, 0x92, 0x24, 0x49, 0x92, 0x24, 0x49, 0x92, 0x24, 0x49, 0x92, 0x24, 0]
    );
}

#[test]
fn process_subfingerprint_appends_gaps_and_a_zero() {
    let mut normal = vec![5u8];
    let mut exceptional = vec![6u8];
    process_subfingerprint(0b1000_0101, &mut normal, &mut exceptional);
    assert_eq!(normal, [5, 1, 2, 5, 0]);
    assert_eq!(exceptional, [6]);
    process_subfingerprint((1 << 7) | (1 << 31), &mut normal, &mut exceptional);
    assert_eq!(normal, [5, 1, 2, 5, 0, 7, 7, 0]);
    assert_eq!(exceptional, [6, 1, 17]);
    process_subfingerprint(0, &mut normal, &mut exceptional);
    assert_eq!(normal, [5, 1, 2, 5, 0, 7, 7, 0, 0]);
    assert_eq!(exceptional, [6, 1, 17]);
}

#[test]
fn write_header_fills_four_bytes() {
    let mut output = [0xeeu8; 6];
    write_header(&mut output, 0x0a_0b_0c, 3);
    assert_eq!(output, [3, 0x0a, 0x0b, 0x0c, 0xee, 0xee]);
    write_header(&mut output, 0x0100_0000, 3);
    assert_eq!(output, [3, 0, 0, 0, 0xee, 0xee]);
}

#[test]
fn header_holds_the_low_bits_of_a_large_count() {
    let fingerprint = vec![0u32; (1 << 24) + 5];
    let compressed = compress(&fingerprint, 2);
    assert_eq!(compressed[..4], [2, 0, 0, 5]);
    assert_eq!(compressed.len(), 4 + (3 * ((1 << 24) + 5) + 7) / 8);
}
