use rdp_core::error::RdpErrorKind;
use rdp_core::gcc::{
    block_header, channel_def, client_core_data, client_network_data, client_security_data,
    read_conference_create_response, server_core_data, server_network_data, server_security_data,
    write_conference_create_request, ClientData, KeyboardLayout, MessageType, Version,
};

#[test]
fn conference_create_request_prelude_and_key() {
    let bytes = write_conference_create_request(&[]);
    assert_eq!(&bytes[0..7], &[0x00, 0x05, 0x00, 0x14, 0x7c, 0x00, 0x01]);
    let n = bytes.len();
    assert_eq!(&bytes[n - 5..n - 1], b"Duca");
    assert_eq!(bytes[n - 1], 0x00);
}

#[test]
fn conference_create_request_carries_user_data() {
    let bytes = write_conference_create_request(&[0xaa, 0xbb]);
    let n = bytes.len();
    assert_eq!(&bytes[n - 2..], &[0xaa, 0xbb]);
    assert_eq!(bytes[n - 3], 2);
}

#[test]
fn client_core_data_default_length() {
    let c = client_core_data(None);
    assert_eq!(c.length(), 212);
    assert_eq!(c.write().len(), 212);
}

#[test]
fn client_core_data_fields() {
    let c = client_core_data(Some(ClientData {
        width: 1024,
        height: 768,
        layout: KeyboardLayout::US,
        server_selected_protocol: 1,
        rdp_version: Version::RdpVersion5plus,
        name: "node".to_string(),
    }));
    assert_eq!(c.cast_u32("version").unwrap(), 0x0008_0004);
    assert_eq!(c.cast_u16("desktopWidth").unwrap(), 1024);
    assert_eq!(c.cast_u16("desktopHeight").unwrap(), 768);
    assert_eq!(c.cast_u32("kbdLayout").unwrap(), 0x409);
    assert_eq!(c.cast_u32("serverSelectedProtocol").unwrap(), 1);
    let name = c.cast_bytes("clientName").unwrap();
    assert_eq!(name.len(), 32);
    assert_eq!(&name[0..8], &[b'n', 0, b'o', 0, b'd', 0, b'e', 0]);
    assert!(name[8..].iter().all(|b| *b == 0));
}

#[test]
fn security_and_network_blocks() {
    assert_eq!(client_security_data().write(), vec![0x0b, 0, 0, 0, 0, 0, 0, 0]);
    assert_eq!(server_security_data().write().len(), 8);
    assert_eq!(server_core_data().write().len(), 12);
    let ch = channel_def(&"rdpdr".to_string(), 0x8080_0000);
    assert_eq!(ch.write(), vec![b'r', b'd', b'p', b'd', b'r', 0x00, 0x00, 0x80, 0x80]);
    let net = client_network_data(vec![ch]);
    assert_eq!(net.cast_u32("channelCount").unwrap(), 1);
    assert_eq!(net.write().len(), 4 + 9);
    assert_eq!(server_network_data().write(), vec![0xeb, 0x03, 0x00, 0x00]);
}

#[test]
fn block_header_adds_four_bytes() {
    let h = block_header(Some(MessageType::CsCore), Some(8));
    assert_eq!(h.write(), vec![0x01, 0xc0, 0x0c, 0x00]);
    assert_eq!(h.length(), 4);
}

fn sample_response() -> Vec<u8> {
    let mut v: Vec<u8> = Vec::new();
    v.push(0x00); // connect response choice
    v.extend_from_slice(&[0x05, 0x00, 0x14, 0x7c, 0x00, 0x01]); // T.124 identifier
    v.push(0x2a); // remaining length
    v.push(0x00); // choice
    v.extend_from_slice(&[0x03, 0xe9]); // 1001
    v.extend_from_slice(&[0x01, 0x00]); // integer: one byte, zero
    v.push(0x00); // enumerated result
    v.push(0x01); // number of sets
    v.push(0xc0); // choice
    v.extend_from_slice(&[0x00, b'M', b'c', b'D', b'n']); // H.221 key
    v.push(20); // user data length
    // server core block: type 0x0c01, length 8, rdpVersion 0x00080004
    v.extend_from_slice(&[0x01, 0x0c, 0x08, 0x00, 0x04, 0x00, 0x08, 0x00]);
    // server net block: type 0x0c03, length 12, channel 1003, two ids
    v.extend_from_slice(&[
        0x03, 0x0c, 0x0c, 0x00, 0xeb, 0x03, 0x02, 0x00, 0xec, 0x03, 0xed, 0x03,
    ]);
    v
}

#[test]
fn conference_create_response_parses_blocks() {
    let v = sample_response();
    let sd = read_conference_create_response(&v).unwrap();
    assert_eq!(sd.channel_ids, vec![0x03ec, 0x03ed]);
    assert_eq!(sd.rdp_version, Version::RdpVersion);
}

#[test]
fn conference_create_response_needs_net_block() {
    let mut v = sample_response();
    let n = v.len();
    v.truncate(n - 12);
    v[21] = 8; // only the core block remains
    let err = read_conference_create_response(&v).unwrap_err();
    assert_eq!(err.kind(), RdpErrorKind::InvalidData);
}

#[test]
fn conference_create_response_checks_mcs_channel() {
    let mut v = sample_response();
    v[34] = 0xec; // channel id is not 1003
    let err = read_conference_create_response(&v).unwrap_err();
    assert_eq!(err.kind(), RdpErrorKind::InvalidConst);
}

#[test]
fn conference_create_response_checks_key() {
    let mut v = sample_response();
    v[17] = b'X';
    let err = read_conference_create_response(&v).unwrap_err();
    assert_eq!(err.kind(), RdpErrorKind::InvalidConst);
}

#[test]
fn version_mapping() {
    assert_eq!(Version::from(0x0008_0001), Version::RdpVersion5plus);
    assert_eq!(Version::from(0x0008_0004), Version::RdpVersion);
    assert_eq!(Version::from(7), Version::Unknown);
    assert_eq!(Version::RdpVersion.code(), 0x0008_0001);
}

#[test]
fn message_type_mapping() {
    assert_eq!(MessageType::from(0x0c01), MessageType::ScCore);
    assert_eq!(MessageType::from(0xc003), MessageType::CsNet);
    assert_eq!(MessageType::from(0xbeef), MessageType::Unknown);
    assert_eq!(MessageType::ScNet.code(), 0x0c03);
}
