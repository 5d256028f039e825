use rdp_core::error::RdpErrorKind;
use rdp_core::hex::decode_hex;

fn chars(s: &str) -> Vec<char> {
    s.chars().collect()
}

#[test]
fn decodes_mixed_case_hex() {
    assert_eq!(decode_hex(&chars("0a1B")).unwrap(), vec![0x0a, 0x1b]);
    assert_eq!(decode_hex(&chars("")).unwrap(), Vec::<u8>::new());
    assert_eq!(
        decode_hex(&chars("aad3b435b51404eeaad3b435b51404ee")).unwrap().len(),
        16
    );
}

#[test]
fn odd_length_is_invalid_data() {
    let err = decode_hex(&chars("abc")).unwrap_err();
    assert_eq!(err.kind(), RdpErrorKind::InvalidData);
}

#[test]
fn non_hex_digit_is_invalid_data() {
    let err = decode_hex(&chars("zz")).unwrap_err();
    assert_eq!(err.kind(), RdpErrorKind::InvalidData);
}
