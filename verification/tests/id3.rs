use wave::id3::id3v2_tag_len;

fn header(version: u8, flags: u8, size: [u8; 4]) -> [u8; 10] {
    let mut h = [0u8; 10];
    h[..3].copy_from_slice(b"ID3");
    h[3] = version;
    h[4] = 0;
    h[5] = flags;
    h[6..10].copy_from_slice(&size);
    h
}

#[test]
fn empty_id3v2_4_tag_is_ten_bytes() {
    let h = header(4, 0x00, [0, 0, 0, 0]);
    assert_eq!(id3v2_tag_len(&h), Some(10));
}

#[test]
fn synchsafe_size_is_decoded() {
    // 0x00 0x02 0x01 0x0A -> (2<<14) | (1<<7) | 10 = 32906 body bytes.
    let h = header(3, 0x00, [0x00, 0x02, 0x01, 0x0A]);
    assert_eq!(id3v2_tag_len(&h), Some(10 + 32906));
}

#[test]
fn footer_flag_adds_ten_bytes() {
    let without = id3v2_tag_len(&header(4, 0x00, [0, 0, 0, 100])).unwrap();
    let with = id3v2_tag_len(&header(4, 0x10, [0, 0, 0, 100])).unwrap();
    assert_eq!(with - without, 10);
}

#[test]
fn non_id3_input_is_rejected() {
    let mut mpeg = [0u8; 10];
    mpeg[0] = 0xFF;
    mpeg[1] = 0xFB;
    assert_eq!(id3v2_tag_len(&mpeg), None);
    assert_eq!(id3v2_tag_len(b"RIFFxxxxWA"), None);
    assert_eq!(id3v2_tag_len(b"ID3"), None, "truncated header");
}

#[test]
fn malformed_size_bytes_are_rejected() {
    assert_eq!(id3v2_tag_len(&header(4, 0x00, [0x80, 0, 0, 0])), None);
    assert_eq!(id3v2_tag_len(&header(0xFF, 0x00, [0, 0, 0, 1])), None);
}

#[test]
fn largest_synchsafe_size_with_footer() {
    let h = header(4, 0x10, [0x7F, 0x7F, 0x7F, 0x7F]);
    assert_eq!(id3v2_tag_len(&h), Some(10 + 0x0FFF_FFFF + 10));
}

#[test]
fn revision_byte_ff_is_rejected() {
    let mut h = header(4, 0x00, [0, 0, 0, 1]);
    h[4] = 0xFF;
    assert_eq!(id3v2_tag_len(&h), None);
}

#[test]
fn trailing_bytes_after_header_are_ignored() {
    let mut bytes = header(3, 0x00, [0, 0, 1, 0]).to_vec();
    bytes.extend_from_slice(b"TIT2 payload");
    assert_eq!(id3v2_tag_len(&bytes), Some(10 + 128));
}
