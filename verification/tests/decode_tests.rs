use datarender::load_data;

#[test]
fn load_data_reads_little_endian_words() {
    let bytes: Vec<u8> = vec![
        0x00, 0x00, 0x80, 0x3f, // 1.0
        0x00, 0x00, 0x00, 0x40, // 2.0
        0x01, 0x02, 0x03, 0x04, // 0x04030201
    ];
    let mut out: Vec<[u32; 3]> = Vec::new();
    load_data(&mut out, &bytes);
    assert_eq!(out, vec![[0x3f80_0000, 0x4000_0000, 0x0403_0201]]);
    assert_eq!(f32::from_bits(out[0][0]), 1.0f32);
    assert_eq!(f32::from_bits(out[0][1]), 2.0f32);
}

#[test]
fn load_data_ignores_trailing_partial_vertex() {
    let mut bytes: Vec<u8> = (0u8..24).collect();
    bytes.extend_from_slice(&[9, 9, 9, 9, 9]);
    let mut out: Vec<[u32; 3]> = Vec::new();
    load_data(&mut out, &bytes);
    assert_eq!(out.len(), 2);
    assert_eq!(out[1][0], u32::from_le_bytes([12, 13, 14, 15]));
    assert_eq!(out[1][2], u32::from_le_bytes([20, 21, 22, 23]));
}

#[test]
fn load_data_appends_to_what_is_there() {
    let mut out: Vec<[u32; 3]> = vec![[7, 7, 7]];
    load_data(&mut out, &[0xff; 12]);
    assert_eq!(out, vec![[7, 7, 7], [u32::MAX, u32::MAX, u32::MAX]]);
}

#[test]
fn load_data_on_short_input_adds_nothing() {
    let mut out: Vec<[u32; 3]> = Vec::new();
    load_data(&mut out, &[1, 2, 3, 4, 5, 6, 7, 8, 9, 10, 11]);
    assert!(out.is_empty());
}

#[test]
fn loading_in_pieces_matches_loading_whole() {
    let bytes: Vec<u8> = (0u8..60).map(|b| b.wrapping_mul(37)).collect();
    let mut whole: Vec<[u32; 3]> = Vec::new();
    load_data(&mut whole, &bytes);
    let mut pieces: Vec<[u32; 3]> = Vec::new();
    load_data(&mut pieces, &bytes[..24]);
    load_data(&mut pieces, &bytes[24..]);
    assert_eq!(whole, pieces);
    assert_eq!(whole.len(), 5);
}
