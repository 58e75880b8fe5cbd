use chromaprint::bit_writer::BitWriter;

#[test]
fn packs_three_bit_symbols_lowest_first() {
    let mut output = [0u8; 4];
    let used = BitWriter::write_all_into(&[1, 2, 3], 3, &mut output);
    assert_eq!(used, 2);
    assert_eq!(output, [0b11_010_001, 0, 0, 0]);
}

#[test]
fn packs_five_bit_symbols_across_bytes() {
    let mut output = [0u8; 4];
    let used = BitWriter::write_all_into(&[31, 1, 17, 2], 5, &mut output);
    assert_eq!(used, 3);
    // 31 | 1 << 5 | 17 << 10 | 2 << 15 = 0x1443f
    assert_eq!(output, [0x3f, 0x44, 0x01, 0]);
}

#[test]
fn packs_whole_bytes_unchanged() {
    let mut output = [0u8; 3];
    let used = BitWriter::write_all_into(&[9, 200, 77], 8, &mut output);
    assert_eq!(used, 3);
    assert_eq!(output, [9, 200, 77]);
}

#[test]
fn leaves_the_bytes_after_the_packed_ones() {
    let mut output = [0xaau8; 4];
    let used = BitWriter::write_all_into(&[7, 7, 7], 3, &mut output);
    assert_eq!(used, 2);
    assert_eq!(output, [0xff, 0x01, 0xaa, 0xaa]);
}

#[test]
fn packs_nothing_into_nothing() {
    let mut output = [0x55u8; 2];
    assert_eq!(BitWriter::write_all_into(&[], 3, &mut output), 0);
    assert_eq!(BitWriter::write_all_into(&[1, 2, 3], 0, &mut output), 0);
    assert_eq!(output, [0x55, 0x55]);
}

#[test]
fn writes_only_the_low_bits_of_a_value() {
    let mut output = [0u8; 2];
    let used = BitWriter::write_all_into(&[0xff, 0x08, 0xf9], 3, &mut output);
    assert_eq!(used, 2);
    assert_eq!(output, [0b01_000_111, 0]);
}

#[test]
fn stages_bits_until_a_byte_is_full() {
    let mut output = [0u8; 2];
    let used = {
        let mut writer = BitWriter::new(&mut output);
        writer.write(5, 3);
        assert_eq!(writer.output_index, 0);
        assert_eq!(writer.buffer_size, 3);
        writer.write(6, 3);
        assert_eq!(writer.output_index, 0);
        assert_eq!(writer.buffer_size, 6);
        writer.write(7, 3);
        assert_eq!(writer.output_index, 1);
        assert_eq!(writer.buffer_size, 1);
        writer.flush()
    };
    assert_eq!(used, 2);
    assert_eq!(output, [0b11_110_101, 1]);
}

#[test]
fn flush_without_staged_bits_writes_nothing() {
    let mut output = [0u8; 2];
    let used = {
        let mut writer = BitWriter::new(&mut output);
        writer.write_all(&[0xab], 8);
        writer.flush()
    };
    assert_eq!(used, 1);
    assert_eq!(output, [0xab, 0]);
}
