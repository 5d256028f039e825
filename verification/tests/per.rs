use rdp_core::error::RdpErrorKind;
use rdp_core::per::{
    read_choice, read_integer, read_integer_16, read_length, read_object_identifier,
    read_octet_stream, read_padding, write_choice, write_integer_16, write_length,
    write_number_of_set, write_numeric_string, write_object_identifier, write_octet_stream,
    write_padding, write_selection,
};

#[test]
fn length_one_byte_form() {
    let mut out = Vec::new();
    write_length(0x7f, &mut out);
    assert_eq!(out, vec![0x7f]);
    let (n, p) = read_length(&out, 0).unwrap();
    assert_eq!((n, p), (0x7f, 1));
}

#[test]
fn length_two_byte_form() {
    let mut out = Vec::new();
    write_length(0x1234, &mut out);
    assert_eq!(out, vec![0x92, 0x34]);
    let (n, p) = read_length(&out, 0).unwrap();
    assert_eq!((n, p), (0x1234, 2));
}

#[test]
fn length_boundary() {
    let mut out = Vec::new();
    write_length(0x80, &mut out);
    assert_eq!(out, vec![0x80, 0x80]);
    assert_eq!(read_length(&out, 0).unwrap(), (0x80, 2));
}

#[test]
fn one_byte_writers() {
    let mut out = Vec::new();
    write_choice(0xc0, &mut out);
    write_selection(0x08, &mut out);
    write_number_of_set(1, &mut out);
    assert_eq!(out, vec![0xc0, 0x08, 0x01]);
    assert_eq!(read_choice(&out, 0).unwrap(), (0xc0, 1));
}

#[test]
fn padding_is_zero_bytes() {
    let mut out = vec![9];
    write_padding(3, &mut out);
    assert_eq!(out, vec![9, 0, 0, 0]);
    assert_eq!(read_padding(3, &out, 1).unwrap(), 4);
    assert_eq!(
        read_padding(9, &out, 1).unwrap_err().kind(),
        RdpErrorKind::InvalidSize
    );
}

#[test]
fn integer_16_big_endian() {
    let mut out = Vec::new();
    write_integer_16(1001, &mut out);
    assert_eq!(out, vec![0x03, 0xe9]);
    assert_eq!(read_integer_16(1001, &out, 0).unwrap(), 2);
    assert_eq!(
        read_integer_16(1002, &out, 0).unwrap_err().kind(),
        RdpErrorKind::InvalidConst
    );
}

#[test]
fn numeric_string_packs_nibbles() {
    let mut out = Vec::new();
    write_numeric_string(b"1", 1, &mut out);
    assert_eq!(out, vec![0x00, 0x10]);
    let mut out2 = Vec::new();
    write_numeric_string(b"123", 0, &mut out2);
    assert_eq!(out2, vec![0x03, 0x12, 0x30]);
}

#[test]
fn octet_stream_prefix_and_bytes() {
    let mut out = Vec::new();
    write_octet_stream(b"Duca", 4, &mut out);
    assert_eq!(out, vec![0x00, b'D', b'u', b'c', b'a']);
    assert_eq!(read_octet_stream(b"Duca", 4, &out, 0).unwrap(), 5);
    let mut wrong = out.clone();
    wrong[2] = b'X';
    assert_eq!(
        read_octet_stream(b"Duca", 4, &wrong, 0).unwrap_err().kind(),
        RdpErrorKind::InvalidConst
    );
}

#[test]
fn object_identifier_fixed_form() {
    let oid = [0u8, 0, 20, 124, 0, 1];
    let mut out = Vec::new();
    write_object_identifier(&oid, &mut out);
    assert_eq!(out, vec![0x05, 0x00, 0x14, 0x7c, 0x00, 0x01]);
    assert_eq!(read_object_identifier(&oid, &out, 0).unwrap(), 6);
    let mut wrong = out.clone();
    wrong[3] = 0x7d;
    assert_eq!(
        read_object_identifier(&oid, &wrong, 0).unwrap_err().kind(),
        RdpErrorKind::InvalidConst
    );
}

#[test]
fn integer_length_prefixed_forms() {
    assert_eq!(read_integer(&[0x01, 0x2a], 0).unwrap(), (0x2a, 2));
    assert_eq!(read_integer(&[0x02, 0x12, 0x34], 0).unwrap(), (0x1234, 3));
    assert_eq!(
        read_integer(&[0x04, 0x01, 0x02, 0x03, 0x04], 0).unwrap(),
        (0x01020304, 5)
    );
    assert_eq!(
        read_integer(&[0x03, 1, 2, 3], 0).unwrap_err().kind(),
        RdpErrorKind::InvalidSize
    );
}
