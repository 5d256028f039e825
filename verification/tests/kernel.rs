use rdp_core::data::{field, field_with_rule, to_vec, Component, FieldValue};
use rdp_core::error::RdpErrorKind;

fn sample() -> Component {
    let mut fields = Vec::new();
    fields.push(field("a", FieldValue::U8(0x11)));
    fields.push(field("b", FieldValue::U16Le(0x2233)));
    fields.push(field("c", FieldValue::U16Be(0x4455)));
    fields.push(field("d", FieldValue::U32Le(0x66778899)));
    fields.push(field("e", FieldValue::U32Be(0xaabbccdd)));
    fields.push(field("f", FieldValue::Bytes(vec![1, 2, 3])));
    Component { fields }
}

#[test]
fn write_fixed_fields() {
    let c = sample();
    let bytes = c.write();
    assert_eq!(
        bytes,
        vec![
            0x11, 0x33, 0x22, 0x44, 0x55, 0x99, 0x88, 0x77, 0x66, 0xaa, 0xbb, 0xcc, 0xdd, 1, 2, 3
        ]
    );
}

#[test]
fn length_equals_write_len() {
    let c = sample();
    assert_eq!(c.length(), c.write().len() as u64);
}

#[test]
fn read_reproduces_written_fields() {
    let c = sample();
    let bytes = c.write();
    let mut t = sample();
    let end = bytes.len();
    let consumed = t.read(&bytes, 0, end).unwrap();
    assert_eq!(consumed, end);
    assert_eq!(t.cast_u8("a").unwrap(), 0x11);
    assert_eq!(t.cast_u16("b").unwrap(), 0x2233);
    assert_eq!(t.cast_u16("c").unwrap(), 0x4455);
    assert_eq!(t.cast_u32("d").unwrap(), 0x66778899);
    assert_eq!(t.cast_u32("e").unwrap(), 0xaabbccdd);
    assert_eq!(t.cast_bytes("f").unwrap(), &vec![1, 2, 3]);
    assert_eq!(t.write(), bytes);
}

#[test]
fn check_field_mismatch_is_invalid_const() {
    let mut fields = Vec::new();
    fields.push(field("k", FieldValue::CheckU8(0x42)));
    let mut c = Component { fields };
    let err = c.read(&[0x41], 0, 1).unwrap_err();
    assert_eq!(err.kind(), RdpErrorKind::InvalidConst);
    let ok = c.read(&[0x42], 0, 1).unwrap();
    assert_eq!(ok, 1);
}

#[test]
fn dyn_length_rule_sizes_dependent_field() {
    let mut fields = Vec::new();
    fields.push(field("n", FieldValue::U16Le(0)));
    fields.push(field_with_rule("body", 0, 1, 0, FieldValue::DynBytes(Vec::new())));
    let mut c = Component { fields };
    let bytes = vec![0x03, 0x00, 0xde, 0xad, 0xbe, 0x77];
    let consumed = c.read(&bytes, 0, bytes.len()).unwrap();
    assert_eq!(consumed, 5);
    assert_eq!(c.cast_bytes("body").unwrap(), &vec![0xde, 0xad, 0xbe]);
}

#[test]
fn dyn_length_rule_underflow_is_invalid_size() {
    let mut fields = Vec::new();
    fields.push(field("n", FieldValue::U16Le(0)));
    fields.push(field_with_rule("body", 0, 1, 4, FieldValue::DynBytes(Vec::new())));
    let mut c = Component { fields };
    let bytes = vec![0x02, 0x00, 0xde, 0xad];
    let err = c.read(&bytes, 0, bytes.len()).unwrap_err();
    assert_eq!(err.kind(), RdpErrorKind::InvalidSize);
}

#[test]
fn array_reads_by_rule() {
    let mut fields = Vec::new();
    fields.push(field("count", FieldValue::U16Le(0)));
    fields.push(field_with_rule("items", 0, 2, 0, FieldValue::ArrayU16Le(Vec::new())));
    let mut c = Component { fields };
    let bytes = vec![0x02, 0x00, 0x34, 0x12, 0x78, 0x56];
    let consumed = c.read(&bytes, 0, bytes.len()).unwrap();
    assert_eq!(consumed, 6);
    assert_eq!(c.cast_u16_array("items").unwrap(), &vec![0x1234, 0x5678]);
}

#[test]
fn optional_fields_present_only_when_bytes_remain() {
    let mut fields = Vec::new();
    fields.push(field("v", FieldValue::U32Le(0)));
    fields.push(field("opt", FieldValue::OptU32Le(None)));
    let mut c = Component { fields };
    let short = vec![1, 0, 0, 0];
    let consumed = c.read(&short, 0, short.len()).unwrap();
    assert_eq!(consumed, 4);
    assert_eq!(c.cast_u32("opt").unwrap_err().kind(), RdpErrorKind::InvalidCast);
    let long = vec![1, 0, 0, 0, 9, 0, 0, 0];
    let consumed = c.read(&long, 0, long.len()).unwrap();
    assert_eq!(consumed, 8);
    assert_eq!(c.cast_u32("opt").unwrap(), 9);
}

#[test]
fn truncated_input_is_invalid_size() {
    let mut c = sample();
    let err = c.read(&[0x11, 0x33], 0, 2).unwrap_err();
    assert_eq!(err.kind(), RdpErrorKind::InvalidSize);
}

#[test]
fn missing_field_is_invalid_cast() {
    let c = sample();
    assert_eq!(c.cast_u8("nope").unwrap_err().kind(), RdpErrorKind::InvalidCast);
    assert_eq!(c.cast_u16("a").unwrap_err().kind(), RdpErrorKind::InvalidCast);
}

#[test]
fn to_vec_concatenates_components() {
    let parts = vec![sample(), sample()];
    let bytes = to_vec(&parts);
    let one = sample().write();
    let mut twice = one.clone();
    twice.extend_from_slice(&one);
    assert_eq!(bytes, twice);
}

#[test]
fn nested_component_round_trip() {
    let inner = |v: u8| {
        let mut f = Vec::new();
        f.push(field("x", FieldValue::U8(v)));
        Component { fields: f }
    };
    let mut fields = Vec::new();
    fields.push(field("head", FieldValue::U8(7)));
    fields.push(field("inner", FieldValue::Nested(inner(9))));
    let c = Component { fields };
    let bytes = c.write();
    assert_eq!(bytes, vec![7, 9]);
    let mut fields2 = Vec::new();
    fields2.push(field("head", FieldValue::U8(0)));
    fields2.push(field("inner", FieldValue::Nested(inner(0))));
    let mut t = Component { fields: fields2 };
    let consumed = t.read(&bytes, 0, bytes.len()).unwrap();
    assert_eq!(consumed, 2);
    assert_eq!(t.write(), bytes);
}
