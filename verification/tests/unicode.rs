use rdp_core::unicode::Unicode;

#[test]
fn utf16_le_of_ascii() {
    assert_eq!("foo".to_utf16_le(), vec![102, 0, 111, 0, 111, 0]);
}

#[test]
fn utf16_le_of_string() {
    let s = "foo".to_string();
    assert_eq!(s.to_utf16_le(), vec![102, 0, 111, 0, 111, 0]);
}

#[test]
fn utf16_le_of_empty() {
    assert_eq!("".to_utf16_le(), Vec::<u8>::new());
}

#[test]
fn utf16_le_of_latin_and_bmp() {
    assert_eq!("é".to_utf16_le(), vec![0xe9, 0x00]);
    assert_eq!("€".to_utf16_le(), vec![0xac, 0x20]);
}

#[test]
fn utf16_le_of_supplementary_plane() {
    // U+1F600 becomes the surrogate pair d83d de00.
    assert_eq!("😀".to_utf16_le(), vec![0x3d, 0xd8, 0x00, 0xde]);
}

#[test]
fn utf16_le_round_trips_through_decode() {
    let s = "gré😀x";
    let bytes = s.to_utf16_le();
    let units: Vec<u16> = bytes
        .chunks(2)
        .map(|c| u16::from_le_bytes([c[0], c[1]]))
        .collect();
    let back = String::from_utf16(&units).unwrap();
    assert_eq!(back, s);
}
