use rdp_core::error::RdpErrorKind;
use rdp_core::license::{
    client_connect, license_binary_blob, licensing_error_message, parse_payload, preamble,
    ErrorCode, LicenseMessage, MessageType, StateTransition,
};

fn error_alert(error_code: u32, transition: u32) -> Vec<u8> {
    let mut v: Vec<u8> = Vec::new();
    v.push(0xff); // bMsgType: ErrorAlert
    v.push(0x03); // flag: version 3.0
    v.extend_from_slice(&[0x10, 0x00]); // wMsgSize: 16, header included
    v.extend_from_slice(&error_code.to_le_bytes());
    v.extend_from_slice(&transition.to_le_bytes());
    v.extend_from_slice(&[0x00, 0x00, 0x00, 0x00]); // empty blob
    v
}

#[test]
fn valid_client_alert_is_accepted() {
    let v = error_alert(0x07, 0x02);
    assert!(client_connect(&v).is_ok());
}

#[test]
fn rejected_license_is_invalid_respond() {
    let v = error_alert(0x07, 0x01);
    let err = client_connect(&v).unwrap_err();
    assert_eq!(err.kind(), RdpErrorKind::InvalidRespond);
}

#[test]
fn other_error_codes_are_rejected() {
    let v = error_alert(0x02, 0x02);
    let err = client_connect(&v).unwrap_err();
    assert_eq!(err.kind(), RdpErrorKind::InvalidRespond);
}

#[test]
fn unknown_error_code_is_invalid_data() {
    let v = error_alert(0x99, 0x02);
    let err = client_connect(&v).unwrap_err();
    assert_eq!(err.kind(), RdpErrorKind::InvalidData);
}

#[test]
fn new_license_is_accepted() {
    let v = vec![0x03, 0x03, 0x04, 0x00];
    assert!(client_connect(&v).is_ok());
}

#[test]
fn wrong_preamble_flag_is_invalid_const() {
    let v = vec![0x03, 0x02, 0x04, 0x00];
    let err = client_connect(&v).unwrap_err();
    assert_eq!(err.kind(), RdpErrorKind::InvalidConst);
}

#[test]
fn license_negotiation_is_not_implemented() {
    let v = vec![0x01, 0x03, 0x04, 0x00];
    let err = client_connect(&v).unwrap_err();
    assert_eq!(err.kind(), RdpErrorKind::NotImplemented);
}

#[test]
fn unknown_message_type_is_invalid_data() {
    let v = vec![0x77, 0x03, 0x04, 0x00];
    let err = client_connect(&v).unwrap_err();
    assert_eq!(err.kind(), RdpErrorKind::InvalidData);
}

#[test]
fn truncated_preamble_is_invalid_size() {
    let v = vec![0xff, 0x03, 0x10, 0x00, 0x07];
    let err = client_connect(&v).unwrap_err();
    assert_eq!(err.kind(), RdpErrorKind::InvalidSize);
}

#[test]
fn parse_payload_reads_the_alert_body() {
    let v = error_alert(0x07, 0x02);
    let mut p = preamble();
    let consumed = p.read(&v, 0, v.len()).unwrap();
    assert_eq!(consumed, 16);
    match parse_payload(&p).unwrap() {
        LicenseMessage::ErrorAlert(em) => {
            assert_eq!(em.cast_u32("dwErrorCode").unwrap(), 7);
            assert_eq!(em.cast_u32("dwStateTransition").unwrap(), 2);
        }
        LicenseMessage::NewLicense => panic!("expected an error alert"),
    }
}

#[test]
fn blob_templates_serialize_empty() {
    assert_eq!(license_binary_blob().write(), vec![0, 0, 0, 0]);
    assert_eq!(licensing_error_message().write().len(), 12);
}

#[test]
fn license_code_mappings() {
    assert_eq!(MessageType::from_code(0x03), Some(MessageType::NewLicense));
    assert_eq!(MessageType::from_code(0xff), Some(MessageType::ErrorAlert));
    assert_eq!(MessageType::from_code(0x55), None);
    assert_eq!(ErrorCode::from_code(7), Some(ErrorCode::StatusValidClient));
    assert_eq!(ErrorCode::from_code(0x99), None);
    assert_eq!(StateTransition::from_code(2), Some(StateTransition::NoTransition));
    assert_eq!(StateTransition::from_code(9), None);
}
