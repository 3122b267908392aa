use vban_emitter::vban::{build_packet, get_sr_index, DEFAULT_SR_INDEX, HEADER_LEN, VBAN_SR};

#[test]
fn sr_index_of_common_rates() {
    assert_eq!(get_sr_index(48000), 3);
    assert_eq!(get_sr_index(44100), 16);
    assert_eq!(get_sr_index(6000), 0);
    assert_eq!(get_sr_index(705600), 20);
}

#[test]
fn sr_index_of_every_table_rate_is_its_position() {
    for (i, &r) in VBAN_SR.iter().enumerate() {
        assert_eq!(get_sr_index(r) as usize, i);
    }
}

#[test]
fn sr_index_of_unknown_rate_defaults_to_48k() {
    assert_eq!(get_sr_index(0), DEFAULT_SR_INDEX);
    assert_eq!(get_sr_index(12345), 3);
    assert_eq!(get_sr_index(u32::MAX), 3);
}

#[test]
fn packet_exact_bytes() {
    let data = [1u8, 2, 3, 4];
    let p = build_packet("air-mini", 3, 2, 0x0403_0201, 256, &data);
    let mut expected = vec![b'V', b'B', b'A', b'N', 3, 255, 1, 1];
    expected.extend_from_slice(b"air-mini");
    expected.extend_from_slice(&[0u8; 8]);
    expected.extend_from_slice(&[0x01, 0x02, 0x03, 0x04]);
    expected.extend_from_slice(&data);
    assert_eq!(p, expected);
    assert_eq!(p.len(), HEADER_LEN + 4);
}

#[test]
fn packet_counter_is_little_endian() {
    let p = build_packet("s", 3, 2, 0xDEADBEEF, 64, &[]);
    assert_eq!(&p[24..28], &0xDEADBEEFu32.to_le_bytes());
    assert_eq!(p.len(), 28);
}

#[test]
fn packet_long_name_is_cut_to_15_bytes() {
    let p = build_packet("abcdefghijklmnopqrstuvwxyz", 3, 2, 0, 1, &[9]);
    assert_eq!(&p[8..23], b"abcdefghijklmno");
    assert_eq!(p[23], 0);
    assert_eq!(p[28], 9);
}

#[test]
fn packet_sr_field_keeps_five_bits() {
    let p = build_packet("x", 0xFF, 2, 0, 1, &[]);
    assert_eq!(p[4], 0x1F);
    let q = build_packet("x", 35, 2, 0, 1, &[]);
    assert_eq!(q[4], 3);
}

#[test]
fn packet_counts_wrap() {
    // frames and channels are stored minus one, in one byte
    let p = build_packet("x", 3, 0, 0, 0, &[]);
    assert_eq!(p[5], 255);
    assert_eq!(p[6], 255);
    let q = build_packet("x", 3, 8, 0, 300, &[]);
    assert_eq!(q[5], 43);
    assert_eq!(q[6], 7);
    assert_eq!(q[7], 1);
}

#[test]
fn packet_empty_name() {
    let p = build_packet("", 3, 2, 0, 256, &[]);
    assert!(p[8..24].iter().all(|&b| b == 0));
}
