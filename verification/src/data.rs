use vstd::prelude::*;

use crate::error::{RdpError, RdpErrorKind, RdpResult};

verus! {

// ---------------------------------------------------------------------------
// The structural message kernel: a component is an ordered sequence of named
// fields; the wire encoding of a component is the concatenation of the
// encodings of its fields in declaration order.
// ---------------------------------------------------------------------------

/// A length rule carried by a dependent field: the byte length of this field
/// on the wire equals `value(gov) * factor - sub`, where `gov` is the index of
/// an earlier integer field of the same component.
#[derive(Clone, Copy)]
pub struct LenRule {
    pub gov: usize,
    pub factor: u16,
    pub sub: u16,
}

/// A wire value: fixed-width integers with explicit endianness, opaque byte
/// vectors of fixed or rule-driven length, checked constants, an optional
/// trailing integer, a homogeneous array, or a nested component.
pub enum FieldValue {
    U8(u8),
    U16Le(u16),
    U16Be(u16),
    U32Le(u32),
    U32Be(u32),
    /// Opaque bytes; decoding reads as many bytes as the template holds.
    Bytes(Vec<u8>),
    /// Opaque bytes whose length a rule computes from an earlier field.
    DynBytes(Vec<u8>),
    /// A one-byte constant; decoding fails with `InvalidConst` on a mismatch.
    CheckU8(u8),
    /// A two-byte little-endian constant checked on decode.
    CheckU16Le(u16),
    /// A little-endian `u32` that is present only when bytes remain.
    OptU32Le(Option<u32>),
    /// A run of little-endian `u16` values whose byte length a rule gives;
    /// without a rule it runs to the end of the enclosing budget.
    ArrayU16Le(Vec<u16>),
    /// A nested component.
    Nested(Component),
}

/// A named field with an optional length rule.
pub struct Field {
    pub name: String,
    pub rule: Option<LenRule>,
    pub value: FieldValue,
}

/// An ordered, named sequence of fields.
pub struct Component {
    pub fields: Vec<Field>,
}

// ---------------------------------------------------------------------------
// The mathematical model: each kernel type has a spec mirror, reached through
// the view operator. Contracts throughout the crate speak of these.
// ---------------------------------------------------------------------------

/// The model of a wire value.
#[verifier::ext_equal]
pub enum SpecFieldValue {
    U8(u8),
    U16Le(u16),
    U16Be(u16),
    U32Le(u32),
    U32Be(u32),
    Bytes(Seq<u8>),
    DynBytes(Seq<u8>),
    CheckU8(u8),
    CheckU16Le(u16),
    OptU32Le(Option<u32>),
    ArrayU16Le(Seq<u16>),
    Nested(SpecComponent),
}

/// The model of a named field.
#[verifier::ext_equal]
pub struct SpecField {
    pub name: Seq<char>,
    pub rule: Option<LenRule>,
    pub value: SpecFieldValue,
}

/// The model of a component.
#[verifier::ext_equal]
pub struct SpecComponent {
    pub fields: Seq<SpecField>,
}

pub open spec fn view_value(v: FieldValue) -> SpecFieldValue
    decreases v, 1int,
{
    match v {
        FieldValue::U8(x) => SpecFieldValue::U8(x),
        FieldValue::U16Le(x) => SpecFieldValue::U16Le(x),
        FieldValue::U16Be(x) => SpecFieldValue::U16Be(x),
        FieldValue::U32Le(x) => SpecFieldValue::U32Le(x),
        FieldValue::U32Be(x) => SpecFieldValue::U32Be(x),
        FieldValue::Bytes(b) => SpecFieldValue::Bytes(b@),
        FieldValue::DynBytes(b) => SpecFieldValue::DynBytes(b@),
        FieldValue::CheckU8(x) => SpecFieldValue::CheckU8(x),
        FieldValue::CheckU16Le(x) => SpecFieldValue::CheckU16Le(x),
        FieldValue::OptU32Le(o) => SpecFieldValue::OptU32Le(o),
        FieldValue::ArrayU16Le(a) => SpecFieldValue::ArrayU16Le(a@),
        FieldValue::Nested(c) => SpecFieldValue::Nested(
            SpecComponent { fields: view_fields_from(c.fields@, 0) },
        ),
    }
}

pub open spec fn view_field(f: Field) -> SpecField
    decreases f, 2int,
{
    SpecField { name: f.name@, rule: f.rule, value: view_value(f.value) }
}

pub open spec fn view_fields_from(fields: Seq<Field>, i: int) -> Seq<SpecField>
    decreases fields, fields.len() - i + 3,
{
    if i < 0 || i >= fields.len() {
        Seq::empty()
    } else {
        seq![view_field(fields[i])] + view_fields_from(fields, i + 1)
    }
}

impl View for FieldValue {
    type V = SpecFieldValue;

    open spec fn view(&self) -> SpecFieldValue {
        view_value(*self)
    }
}

impl View for Field {
    type V = SpecField;

    open spec fn view(&self) -> SpecField {
        view_field(*self)
    }
}

impl View for Component {
    type V = SpecComponent;

    open spec fn view(&self) -> SpecComponent {
        SpecComponent { fields: view_fields_from(self.fields@, 0) }
    }
}

/// How `view_fields_from` relates to per-field views, index by index.
pub proof fn lemma_view_fields_from(fields: Seq<Field>, i: int)
    requires
        0 <= i <= fields.len(),
    ensures
        view_fields_from(fields, i).len() == fields.len() - i,
        forall|j: int|
            0 <= j < fields.len() - i ==> view_fields_from(fields, i)[j] == view_field(
                fields[i + j],
            ),
    decreases fields.len() - i,
{
    if i < fields.len() {
        lemma_view_fields_from(fields, i + 1);
    }
}

// ---------------------------------------------------------------------------
// Byte-level integer encodings.
// ---------------------------------------------------------------------------

pub open spec fn le16(x: u16) -> Seq<u8> {
    seq![(x & 0xff) as u8, ((x >> 8) & 0xff) as u8]
}

pub open spec fn be16(x: u16) -> Seq<u8> {
    seq![((x >> 8) & 0xff) as u8, (x & 0xff) as u8]
}

pub open spec fn le32(x: u32) -> Seq<u8> {
    seq![
        (x & 0xff) as u8,
        ((x >> 8) & 0xff) as u8,
        ((x >> 16) & 0xff) as u8,
        ((x >> 24) & 0xff) as u8,
    ]
}

pub open spec fn be32(x: u32) -> Seq<u8> {
    seq![
        ((x >> 24) & 0xff) as u8,
        ((x >> 16) & 0xff) as u8,
        ((x >> 8) & 0xff) as u8,
        (x & 0xff) as u8,
    ]
}

pub open spec fn u16_from_le(b0: u8, b1: u8) -> u16 {
    (b0 as u16 | ((b1 as u16) << 8)) as u16
}

pub open spec fn u16_from_be(b0: u8, b1: u8) -> u16 {
    (((b0 as u16) << 8) | b1 as u16) as u16
}

pub open spec fn u32_from_le(b0: u8, b1: u8, b2: u8, b3: u8) -> u32 {
    (b0 as u32 | ((b1 as u32) << 8) | ((b2 as u32) << 16) | ((b3 as u32) << 24)) as u32
}

pub open spec fn u32_from_be(b0: u8, b1: u8, b2: u8, b3: u8) -> u32 {
    (((b0 as u32) << 24) | ((b1 as u32) << 16) | ((b2 as u32) << 8) | b3 as u32) as u32
}

/// The little-endian flattening of a sequence of 16-bit values.
pub open spec fn enc_u16s(v: Seq<u16>) -> Seq<u8> {
    Seq::new(
        (2 * v.len()) as nat,
        |i: int|
            if i % 2 == 0 {
                (v[i / 2] & 0xff) as u8
            } else {
                ((v[i / 2] >> 8) & 0xff) as u8
            },
    )
}

pub proof fn lemma_le16_roundtrip(x: u16)
    ensures
        u16_from_le((x & 0xff) as u8, ((x >> 8) & 0xff) as u8) == x,
{
    assert(((x & 0xff) as u8) as u16 | ((((x >> 8) & 0xff) as u8) as u16) << 8 == x)
        by (bit_vector);
}

pub proof fn lemma_be16_roundtrip(x: u16)
    ensures
        u16_from_be(((x >> 8) & 0xff) as u8, (x & 0xff) as u8) == x,
{
    assert(((((x >> 8) & 0xff) as u8) as u16) << 8 | ((x & 0xff) as u8) as u16 == x)
        by (bit_vector);
}

pub proof fn lemma_le32_roundtrip(x: u32)
    ensures
        u32_from_le(
            (x & 0xff) as u8,
            ((x >> 8) & 0xff) as u8,
            ((x >> 16) & 0xff) as u8,
            ((x >> 24) & 0xff) as u8,
        ) == x,
{
    assert(((x & 0xff) as u8) as u32 | ((((x >> 8) & 0xff) as u8) as u32) << 8 | ((((x >> 16)
        & 0xff) as u8) as u32) << 16 | ((((x >> 24) & 0xff) as u8) as u32) << 24 == x)
        by (bit_vector);
}

pub proof fn lemma_be32_roundtrip(x: u32)
    ensures
        u32_from_be(
            ((x >> 24) & 0xff) as u8,
            ((x >> 16) & 0xff) as u8,
            ((x >> 8) & 0xff) as u8,
            (x & 0xff) as u8,
        ) == x,
{
    assert((((((x >> 24) & 0xff) as u8) as u32) << 24) | (((((x >> 16) & 0xff) as u8) as u32)
        << 16) | (((((x >> 8) & 0xff) as u8) as u32) << 8) | ((x & 0xff) as u8) as u32 == x)
        by (bit_vector);
}

pub proof fn lemma_le16_bytes(b0: u8, b1: u8)
    ensures
        (u16_from_le(b0, b1) & 0xff) as u8 == b0,
        ((u16_from_le(b0, b1) >> 8) & 0xff) as u8 == b1,
{
    assert(((b0 as u16 | ((b1 as u16) << 8)) & 0xff) as u8 == b0) by (bit_vector);
    assert((((b0 as u16 | ((b1 as u16) << 8)) >> 8) & 0xff) as u8 == b1) by (bit_vector);
}

pub proof fn lemma_be16_bytes(b0: u8, b1: u8)
    ensures
        ((u16_from_be(b0, b1) >> 8) & 0xff) as u8 == b0,
        (u16_from_be(b0, b1) & 0xff) as u8 == b1,
{
    assert(((((b0 as u16) << 8 | b1 as u16) >> 8) & 0xff) as u8 == b0) by (bit_vector);
    assert((((b0 as u16) << 8 | b1 as u16) & 0xff) as u8 == b1) by (bit_vector);
}

pub proof fn lemma_le32_bytes(b0: u8, b1: u8, b2: u8, b3: u8)
    ensures
        (u32_from_le(b0, b1, b2, b3) & 0xff) as u8 == b0,
        ((u32_from_le(b0, b1, b2, b3) >> 8) & 0xff) as u8 == b1,
        ((u32_from_le(b0, b1, b2, b3) >> 16) & 0xff) as u8 == b2,
        ((u32_from_le(b0, b1, b2, b3) >> 24) & 0xff) as u8 == b3,
{
    assert(((b0 as u32 | ((b1 as u32) << 8) | ((b2 as u32) << 16) | ((b3 as u32) << 24))
        & 0xff) as u8 == b0) by (bit_vector);
    assert((((b0 as u32 | ((b1 as u32) << 8) | ((b2 as u32) << 16) | ((b3 as u32) << 24)) >> 8)
        & 0xff) as u8 == b1) by (bit_vector);
    assert((((b0 as u32 | ((b1 as u32) << 8) | ((b2 as u32) << 16) | ((b3 as u32) << 24)) >> 16)
        & 0xff) as u8 == b2) by (bit_vector);
    assert((((b0 as u32 | ((b1 as u32) << 8) | ((b2 as u32) << 16) | ((b3 as u32) << 24)) >> 24)
        & 0xff) as u8 == b3) by (bit_vector);
}

pub proof fn lemma_be32_bytes(b0: u8, b1: u8, b2: u8, b3: u8)
    ensures
        ((u32_from_be(b0, b1, b2, b3) >> 24) & 0xff) as u8 == b0,
        ((u32_from_be(b0, b1, b2, b3) >> 16) & 0xff) as u8 == b1,
        ((u32_from_be(b0, b1, b2, b3) >> 8) & 0xff) as u8 == b2,
        (u32_from_be(b0, b1, b2, b3) & 0xff) as u8 == b3,
{
    assert((((((b0 as u32) << 24) | ((b1 as u32) << 16) | ((b2 as u32) << 8) | b3 as u32) >> 24)
        & 0xff) as u8 == b0) by (bit_vector);
    assert((((((b0 as u32) << 24) | ((b1 as u32) << 16) | ((b2 as u32) << 8) | b3 as u32) >> 16)
        & 0xff) as u8 == b1) by (bit_vector);
    assert((((((b0 as u32) << 24) | ((b1 as u32) << 16) | ((b2 as u32) << 8) | b3 as u32) >> 8)
        & 0xff) as u8 == b2) by (bit_vector);
    assert(((((b0 as u32) << 24) | ((b1 as u32) << 16) | ((b2 as u32) << 8) | b3 as u32)
        & 0xff) as u8 == b3) by (bit_vector);
}

// ---------------------------------------------------------------------------
// The encoding of a message: concatenation of its fields in declaration
// order.
// ---------------------------------------------------------------------------

pub open spec fn enc_value(v: SpecFieldValue) -> Seq<u8>
    decreases v, 0int,
{
    match v {
        SpecFieldValue::U8(x) => seq![x],
        SpecFieldValue::U16Le(x) => le16(x),
        SpecFieldValue::U16Be(x) => be16(x),
        SpecFieldValue::U32Le(x) => le32(x),
        SpecFieldValue::U32Be(x) => be32(x),
        SpecFieldValue::Bytes(b) => b,
        SpecFieldValue::DynBytes(b) => b,
        SpecFieldValue::CheckU8(x) => seq![x],
        SpecFieldValue::CheckU16Le(x) => le16(x),
        SpecFieldValue::OptU32Le(o) => match o {
            Option::Some(x) => le32(x),
            Option::None => Seq::empty(),
        },
        SpecFieldValue::ArrayU16Le(a) => enc_u16s(a),
        SpecFieldValue::Nested(c) => enc_fields_from(c.fields, 0),
    }
}

pub open spec fn enc_fields_from(fields: Seq<SpecField>, i: int) -> Seq<u8>
    decreases fields, fields.len() - i,
{
    if i < 0 || i >= fields.len() {
        Seq::empty()
    } else {
        enc_value(fields[i].value) + enc_fields_from(fields, i + 1)
    }
}

/// The canonical encoding of a component.
pub open spec fn enc_component(c: SpecComponent) -> Seq<u8> {
    enc_fields_from(c.fields, 0)
}

// ---------------------------------------------------------------------------
// Executable serialization.
// ---------------------------------------------------------------------------

fn write_value(v: &FieldValue, out: &mut Vec<u8>)
    ensures
        final(out)@ == old(out)@ + enc_value(view_value(*v)),
    decreases *v, 0int,
{
    match v {
        FieldValue::U8(x) => {
            out.push(*x);
            assert(out@ =~= old(out)@ + enc_value(view_value(*v)));
        }
        FieldValue::U16Le(x) => {
            out.push((*x & 0xff) as u8);
            out.push(((*x >> 8) & 0xff) as u8);
            assert(out@ =~= old(out)@ + enc_value(view_value(*v)));
        }
        FieldValue::U16Be(x) => {
            out.push(((*x >> 8) & 0xff) as u8);
            out.push((*x & 0xff) as u8);
            assert(out@ =~= old(out)@ + enc_value(view_value(*v)));
        }
        FieldValue::U32Le(x) => {
            out.push((*x & 0xff) as u8);
            out.push(((*x >> 8) & 0xff) as u8);
            out.push(((*x >> 16) & 0xff) as u8);
            out.push(((*x >> 24) & 0xff) as u8);
            assert(out@ =~= old(out)@ + enc_value(view_value(*v)));
        }
        FieldValue::U32Be(x) => {
            out.push(((*x >> 24) & 0xff) as u8);
            out.push(((*x >> 16) & 0xff) as u8);
            out.push(((*x >> 8) & 0xff) as u8);
            out.push((*x & 0xff) as u8);
            assert(out@ =~= old(out)@ + enc_value(view_value(*v)));
        }
        FieldValue::Bytes(b) => {
            out.extend_from_slice(b.as_slice());
            assert(out@ =~= old(out)@ + enc_value(view_value(*v)));
        }
        FieldValue::DynBytes(b) => {
            out.extend_from_slice(b.as_slice());
            assert(out@ =~= old(out)@ + enc_value(view_value(*v)));
        }
        FieldValue::CheckU8(x) => {
            out.push(*x);
            assert(out@ =~= old(out)@ + enc_value(view_value(*v)));
        }
        FieldValue::CheckU16Le(x) => {
            out.push((*x & 0xff) as u8);
            out.push(((*x >> 8) & 0xff) as u8);
            assert(out@ =~= old(out)@ + enc_value(view_value(*v)));
        }
        FieldValue::OptU32Le(o) => {
            match o {
                Option::Some(x) => {
                    out.push((*x & 0xff) as u8);
                    out.push(((*x >> 8) & 0xff) as u8);
                    out.push(((*x >> 16) & 0xff) as u8);
                    out.push(((*x >> 24) & 0xff) as u8);
                }
                Option::None => {}
            }
            assert(out@ =~= old(out)@ + enc_value(view_value(*v)));
        }
        FieldValue::ArrayU16Le(a) => {
            let n: usize = a.len();
            let mut k: usize = 0;
            while k < n
                invariant
                    n == a@.len(),
                    k <= n,
                    out@ == old(out)@ + enc_u16s(a@.take(k as int)),
                decreases n - k,
            {
                let x: u16 = a[k];
                out.push((x & 0xff) as u8);
                out.push(((x >> 8) & 0xff) as u8);
                assert(out@ =~= old(out)@ + enc_u16s(a@.take(k + 1 as int)));
                k = k + 1;
            }
            assert(a@.take(n as int) =~= a@);
            assert(out@ =~= old(out)@ + enc_value(view_value(*v)));
        }
        FieldValue::Nested(c) => {
            write_fields(&c.fields, 0, out);
        }
    }
}

fn write_fields(fields: &Vec<Field>, i: usize, out: &mut Vec<u8>)
    requires
        i <= fields@.len(),
    ensures
        final(out)@ == old(out)@ + enc_fields_from(view_fields_from(fields@, 0), i as int),
    decreases fields@, fields@.len() - i,
{
    proof {
        lemma_view_fields_from(fields@, 0);
    }
    if i < fields.len() {
        write_value(&fields[i].value, out);
        write_fields(fields, i + 1, out);
        assert(out@ =~= old(out)@ + enc_fields_from(view_fields_from(fields@, 0), i as int));
    } else {
        assert(out@ =~= old(out)@ + enc_fields_from(view_fields_from(fields@, 0), i as int));
    }
}

// ---------------------------------------------------------------------------
// Executable length computation, without allocating.
// ---------------------------------------------------------------------------

fn length_value(v: &FieldValue) -> (r: u64)
    requires
        enc_value(view_value(*v)).len() <= u64::MAX,
    ensures
        r == enc_value(view_value(*v)).len(),
    decreases *v, 0int,
{
    match v {
        FieldValue::U8(_) => 1,
        FieldValue::U16Le(_) => 2,
        FieldValue::U16Be(_) => 2,
        FieldValue::U32Le(_) => 4,
        FieldValue::U32Be(_) => 4,
        FieldValue::Bytes(b) => b.len() as u64,
        FieldValue::DynBytes(b) => b.len() as u64,
        FieldValue::CheckU8(_) => 1,
        FieldValue::CheckU16Le(_) => 2,
        FieldValue::OptU32Le(o) => match o {
            Option::Some(_) => 4,
            Option::None => 0,
        },
        FieldValue::ArrayU16Le(a) => (a.len() as u64) * 2,
        FieldValue::Nested(c) => length_fields(&c.fields, 0),
    }
}

fn length_fields(fields: &Vec<Field>, i: usize) -> (r: u64)
    requires
        i <= fields@.len(),
        enc_fields_from(view_fields_from(fields@, 0), i as int).len() <= u64::MAX,
    ensures
        r == enc_fields_from(view_fields_from(fields@, 0), i as int).len(),
    decreases fields@, fields@.len() - i,
{
    proof {
        lemma_view_fields_from(fields@, 0);
    }
    if i < fields.len() {
        let head: u64 = length_value(&fields[i].value);
        let rest: u64 = length_fields(fields, i + 1);
        head + rest
    } else {
        0
    }
}

impl Component {
    /// Serializes the component: the concatenation of its field encodings in
    /// declaration order.
    pub fn write(&self) -> (r: Vec<u8>)
        ensures
            r@ == enc_component(self@),
    {
        let mut out: Vec<u8> = Vec::new();
        write_fields(&self.fields, 0, &mut out);
        out
    }

    /// The encoded length in bytes, equal to the byte count that `write`
    /// produces, computed without serializing.
    pub fn length(&self) -> (r: u64)
        requires
            enc_component(self@).len() <= u64::MAX,
        ensures
            r == enc_component(self@).len(),
    {
        length_fields(&self.fields, 0)
    }
}

/// Serializes a sequence of components back to back, as a heterogeneous
/// trame is laid out on the wire.
pub fn to_vec(parts: &Vec<Component>) -> (r: Vec<u8>)
    ensures
        r@ == enc_components_from(parts@, 0),
{
    let mut out: Vec<u8> = Vec::new();
    let n: usize = parts.len();
    let mut k: usize = 0;
    while k < n
        invariant
            n == parts@.len(),
            k <= n,
            out@ + enc_components_from(parts@, k as int) == enc_components_from(parts@, 0),
        decreases n - k,
    {
        write_fields(&parts[k].fields, 0, &mut out);
        assert(out@ + enc_components_from(parts@, k + 1 as int) =~= enc_components_from(
            parts@,
            0,
        ));
        k = k + 1;
    }
    assert(out@ =~= enc_components_from(parts@, 0));
    out
}

pub open spec fn enc_components_from(parts: Seq<Component>, i: int) -> Seq<u8>
    decreases parts.len() - i,
{
    if i < 0 || i >= parts.len() {
        Seq::empty()
    } else {
        enc_component(parts[i]@) + enc_components_from(parts, i + 1)
    }
}

// ---------------------------------------------------------------------------
// Decoding: the left inverse of the encoding. Decoding is template-driven:
// the in-memory structure gives each field's kind, fixed lengths and length
// rules, and the decoder fills the values from the byte source.
// ---------------------------------------------------------------------------

/// The integer value of a field, where it has one; length rules may only
/// name fields that have one.
pub open spec fn int_val(v: SpecFieldValue) -> Option<int> {
    match v {
        SpecFieldValue::U8(x) => Option::Some(x as int),
        SpecFieldValue::U16Le(x) => Option::Some(x as int),
        SpecFieldValue::U16Be(x) => Option::Some(x as int),
        SpecFieldValue::U32Le(x) => Option::Some(x as int),
        SpecFieldValue::U32Be(x) => Option::Some(x as int),
        SpecFieldValue::CheckU8(x) => Option::Some(x as int),
        SpecFieldValue::CheckU16Le(x) => Option::Some(x as int),
        _ => Option::None,
    }
}

/// The little-endian reading of `n` 16-bit values at `pos`.
pub open spec fn dec_u16s(input: Seq<u8>, pos: int, n: int) -> Seq<u16> {
    Seq::new(n as nat, |k: int| u16_from_le(input[pos + 2 * k], input[pos + 2 * k + 1]))
}

/// Resolves the length rule of field `i`, if any, against the fields
/// already decoded.
pub open spec fn spec_rule_len(rule: Option<LenRule>, done: Seq<SpecField>) -> Result<
    Option<int>,
    RdpErrorKind,
> {
    match rule {
        Option::None => Result::Ok(Option::None),
        Option::Some(r) => if r.gov >= done.len() {
            Result::Err(RdpErrorKind::InvalidData)
        } else {
            match int_val(done[r.gov as int].value) {
                Option::None => Result::Err(RdpErrorKind::InvalidData),
                Option::Some(v) => if v * r.factor < r.sub {
                    Result::Err(RdpErrorKind::InvalidSize)
                } else {
                    Result::Ok(Option::Some(v * r.factor - r.sub))
                },
            }
        },
    }
}

/// Decodes one value of the template's kind from `input[pos..end]`; `rlen`
/// is the rule-resolved byte length, where the field carries a rule.
pub open spec fn spec_read_value(
    tmpl: SpecFieldValue,
    rlen: Option<int>,
    input: Seq<u8>,
    pos: int,
    end: int,
) -> Result<(SpecFieldValue, int), RdpErrorKind>
    decreases tmpl, 0int,
{
    match tmpl {
        SpecFieldValue::U8(_) => if pos + 1 <= end {
            Result::Ok((SpecFieldValue::U8(input[pos]), pos + 1))
        } else {
            Result::Err(RdpErrorKind::InvalidSize)
        },
        SpecFieldValue::U16Le(_) => if pos + 2 <= end {
            Result::Ok((SpecFieldValue::U16Le(u16_from_le(input[pos], input[pos + 1])), pos + 2))
        } else {
            Result::Err(RdpErrorKind::InvalidSize)
        },
        SpecFieldValue::U16Be(_) => if pos + 2 <= end {
            Result::Ok((SpecFieldValue::U16Be(u16_from_be(input[pos], input[pos + 1])), pos + 2))
        } else {
            Result::Err(RdpErrorKind::InvalidSize)
        },
        SpecFieldValue::U32Le(_) => if pos + 4 <= end {
            Result::Ok(
                (
                    SpecFieldValue::U32Le(
                        u32_from_le(input[pos], input[pos + 1], input[pos + 2], input[pos + 3]),
                    ),
                    pos + 4,
                ),
            )
        } else {
            Result::Err(RdpErrorKind::InvalidSize)
        },
        SpecFieldValue::U32Be(_) => if pos + 4 <= end {
            Result::Ok(
                (
                    SpecFieldValue::U32Be(
                        u32_from_be(input[pos], input[pos + 1], input[pos + 2], input[pos + 3]),
                    ),
                    pos + 4,
                ),
            )
        } else {
            Result::Err(RdpErrorKind::InvalidSize)
        },
        SpecFieldValue::Bytes(b) => if pos + b.len() <= end {
            Result::Ok(
                (SpecFieldValue::Bytes(input.subrange(pos, pos + b.len())), pos + b.len() as int),
            )
        } else {
            Result::Err(RdpErrorKind::InvalidSize)
        },
        SpecFieldValue::DynBytes(_) => match rlen {
            Option::None => Result::Err(RdpErrorKind::InvalidData),
            Option::Some(n) => if n < 0 {
                Result::Err(RdpErrorKind::InvalidSize)
            } else if pos + n <= end {
                Result::Ok((SpecFieldValue::DynBytes(input.subrange(pos, pos + n)), pos + n))
            } else {
                Result::Err(RdpErrorKind::InvalidSize)
            },
        },
        SpecFieldValue::CheckU8(c) => if pos + 1 <= end {
            if input[pos] == c {
                Result::Ok((SpecFieldValue::CheckU8(c), pos + 1))
            } else {
                Result::Err(RdpErrorKind::InvalidConst)
            }
        } else {
            Result::Err(RdpErrorKind::InvalidSize)
        },
        SpecFieldValue::CheckU16Le(c) => if pos + 2 <= end {
            if u16_from_le(input[pos], input[pos + 1]) == c {
                Result::Ok((SpecFieldValue::CheckU16Le(c), pos + 2))
            } else {
                Result::Err(RdpErrorKind::InvalidConst)
            }
        } else {
            Result::Err(RdpErrorKind::InvalidSize)
        },
        SpecFieldValue::OptU32Le(_) => if pos + 4 <= end {
            Result::Ok(
                (
                    SpecFieldValue::OptU32Le(
                        Option::Some(
                            u32_from_le(
                                input[pos],
                                input[pos + 1],
                                input[pos + 2],
                                input[pos + 3],
                            ),
                        ),
                    ),
                    pos + 4,
                ),
            )
        } else {
            Result::Ok((SpecFieldValue::OptU32Le(Option::None), pos))
        },
        SpecFieldValue::ArrayU16Le(_) => {
            let n = match rlen {
                Option::Some(n) => n,
                Option::None => end - pos,
            };
            if n < 0 || n % 2 != 0 {
                Result::Err(RdpErrorKind::InvalidSize)
            } else if pos + n <= end {
                Result::Ok((SpecFieldValue::ArrayU16Le(dec_u16s(input, pos, n / 2)), pos + n))
            } else {
                Result::Err(RdpErrorKind::InvalidSize)
            }
        },
        SpecFieldValue::Nested(c) => match spec_read_fields(c.fields, 0, Seq::empty(), input, pos, end) {
            Result::Ok((fs, p2)) => Result::Ok(
                (SpecFieldValue::Nested(SpecComponent { fields: fs }), p2),
            ),
            Result::Err(e) => Result::Err(e),
        },
    }
}

/// Decodes the fields of a template from index `i` on, having already
/// decoded `done`, and returns all decoded fields with the final position.
pub open spec fn spec_read_fields(
    tmpl: Seq<SpecField>,
    i: int,
    done: Seq<SpecField>,
    input: Seq<u8>,
    pos: int,
    end: int,
) -> Result<(Seq<SpecField>, int), RdpErrorKind>
    decreases tmpl, tmpl.len() - i,
{
    if i < 0 || i >= tmpl.len() {
        Result::Ok((done, pos))
    } else {
        match spec_rule_len(tmpl[i].rule, done) {
            Result::Err(e) => Result::Err(e),
            Result::Ok(rlen) => match spec_read_value(tmpl[i].value, rlen, input, pos, end) {
                Result::Err(e) => Result::Err(e),
                Result::Ok((nv, p2)) => spec_read_fields(
                    tmpl,
                    i + 1,
                    done.push(SpecField { name: tmpl[i].name, rule: tmpl[i].rule, value: nv }),
                    input,
                    p2,
                    end,
                ),
            },
        }
    }
}

/// Decoding a whole component template against `input[pos..end]`.
pub open spec fn spec_read_component(c: SpecComponent, input: Seq<u8>, pos: int, end: int) -> Result<
    (SpecComponent, int),
    RdpErrorKind,
> {
    match spec_read_fields(c.fields, 0, Seq::empty(), input, pos, end) {
        Result::Ok((fs, p2)) => Result::Ok((SpecComponent { fields: fs }, p2)),
        Result::Err(e) => Result::Err(e),
    }
}

// ---------------------------------------------------------------------------
// Executable decoding.
// ---------------------------------------------------------------------------

/// The spec value of an executable rule-resolved length.
pub open spec fn olen(o: Option<u64>) -> Option<int> {
    match o {
        Option::None => Option::None,
        Option::Some(n) => Option::Some(n as int),
    }
}

/// Views of a pushed field sequence, index by index.
pub proof fn lemma_view_fields_push(fields: Seq<Field>, f: Field)
    ensures
        view_fields_from(fields.push(f), 0) == view_fields_from(fields, 0).push(view_field(f)),
{
    lemma_view_fields_push_from(fields, f, 0);
    lemma_view_fields_from(fields, 0);
    lemma_view_fields_from(fields.push(f), 0);
    assert(view_fields_from(fields.push(f), 0) =~= view_fields_from(fields, 0).push(
        view_field(f),
    ));
}

proof fn lemma_view_fields_push_from(fields: Seq<Field>, f: Field, i: int)
    requires
        0 <= i <= fields.len(),
    ensures
        view_fields_from(fields.push(f), i) == view_fields_from(fields, i) + seq![
            view_field(f),
        ],
    decreases fields.len() - i,
{
    assert(fields.push(f).len() == fields.len() + 1);
    if i < fields.len() {
        lemma_view_fields_push_from(fields, f, i + 1);
        assert(fields.push(f)[i] == fields[i]);
        assert(view_fields_from(fields.push(f), i) == seq![view_field(fields[i])]
            + view_fields_from(fields.push(f), i + 1));
        assert(view_fields_from(fields, i) == seq![view_field(fields[i])] + view_fields_from(
            fields,
            i + 1,
        ));
        assert(view_fields_from(fields.push(f), i) =~= view_fields_from(fields, i) + seq![
            view_field(f),
        ]);
    } else {
        assert(fields.push(f)[i] == f);
        assert(view_fields_from(fields.push(f), i) == seq![view_field(f)] + view_fields_from(
            fields.push(f),
            i + 1,
        ));
        assert(view_fields_from(fields.push(f), i + 1) == Seq::<SpecField>::empty());
        assert(view_fields_from(fields, i) == Seq::<SpecField>::empty());
        assert(view_fields_from(fields.push(f), i) =~= view_fields_from(fields, i) + seq![
            view_field(f),
        ]);
    }
}

/// Copies `input[a..b]` into a fresh vector.
fn copy_range(input: &[u8], a: usize, b: usize) -> (v: Vec<u8>)
    requires
        a <= b <= input@.len(),
    ensures
        v@ == input@.subrange(a as int, b as int),
{
    let mut v: Vec<u8> = Vec::new();
    v.extend_from_slice(&input[a..b]);
    assert(v@ =~= input@.subrange(a as int, b as int));
    v
}

/// The integer value of a field, executably.
fn int_val_exec(v: &FieldValue) -> (r: Option<u64>)
    ensures
        match int_val(view_value(*v)) {
            Option::None => r is None,
            Option::Some(n) => r == Option::Some(n as u64) && 0 <= n <= u32::MAX,
        },
{
    match v {
        FieldValue::U8(x) => Option::Some(*x as u64),
        FieldValue::U16Le(x) => Option::Some(*x as u64),
        FieldValue::U16Be(x) => Option::Some(*x as u64),
        FieldValue::U32Le(x) => Option::Some(*x as u64),
        FieldValue::U32Be(x) => Option::Some(*x as u64),
        FieldValue::CheckU8(x) => Option::Some(*x as u64),
        FieldValue::CheckU16Le(x) => Option::Some(*x as u64),
        _ => Option::None,
    }
}

/// Resolves a length rule against the fields decoded so far.
fn rule_len_exec(rule: &Option<LenRule>, done: &Vec<Field>) -> (r: Result<Option<u64>, RdpError>)
    ensures
        match r {
            Result::Ok(rl) => spec_rule_len(*rule, view_fields_from(done@, 0)) == Result::<
                Option<int>,
                RdpErrorKind,
            >::Ok(olen(rl)),
            Result::Err(e) => spec_rule_len(*rule, view_fields_from(done@, 0)) == Result::<
                Option<int>,
                RdpErrorKind,
            >::Err(e.kind),
        },
{
    proof {
        lemma_view_fields_from(done@, 0);
    }
    match rule {
        Option::None => Result::Ok(Option::None),
        Option::Some(lr) => {
            if lr.gov >= done.len() {
                return Result::Err(RdpError::new(RdpErrorKind::InvalidData));
            }
            match int_val_exec(&done[lr.gov].value) {
                Option::None => Result::Err(RdpError::new(RdpErrorKind::InvalidData)),
                Option::Some(v) => {
                    assert(v * (lr.factor as u64) <= 0xffff_ffffu64 * 0xffffu64)
                        by (nonlinear_arith)
                        requires
                            v <= 0xffff_ffffu64,
                            lr.factor <= 0xffffu64,
                    ;
                    let prod: u64 = v * (lr.factor as u64);
                    if prod < lr.sub as u64 {
                        Result::Err(RdpError::new(RdpErrorKind::InvalidSize))
                    } else {
                        Result::Ok(Option::Some(prod - lr.sub as u64))
                    }
                },
            }
        },
    }
}

/// Decodes one value of the template's kind, executably.
#[verifier::rlimit(50)]
fn read_value_exec(tmpl: &FieldValue, rlen: Option<u64>, input: &[u8], pos: usize, end: usize) -> (r:
    Result<(FieldValue, usize), RdpError>)
    requires
        pos <= end <= input@.len(),
    ensures
        match r {
            Result::Ok(t) => spec_read_value(
                view_value(*tmpl),
                olen(rlen),
                input@,
                pos as int,
                end as int,
            ) == Result::<(SpecFieldValue, int), RdpErrorKind>::Ok(
                (view_value(t.0), t.1 as int),
            ) && pos <= t.1 <= end,
            Result::Err(e) => spec_read_value(
                view_value(*tmpl),
                olen(rlen),
                input@,
                pos as int,
                end as int,
            ) == Result::<(SpecFieldValue, int), RdpErrorKind>::Err(e.kind),
        },
    decreases *tmpl, 0int,
{
    match tmpl {
        FieldValue::U8(_) => {
            if end - pos >= 1 {
                Result::Ok((FieldValue::U8(input[pos]), pos + 1))
            } else {
                Result::Err(RdpError::new(RdpErrorKind::InvalidSize))
            }
        },
        FieldValue::U16Le(_) => {
            if end - pos >= 2 {
                let x: u16 = input[pos] as u16 | ((input[pos + 1] as u16) << 8);
                Result::Ok((FieldValue::U16Le(x), pos + 2))
            } else {
                Result::Err(RdpError::new(RdpErrorKind::InvalidSize))
            }
        },
        FieldValue::U16Be(_) => {
            if end - pos >= 2 {
                let x: u16 = ((input[pos] as u16) << 8) | input[pos + 1] as u16;
                Result::Ok((FieldValue::U16Be(x), pos + 2))
            } else {
                Result::Err(RdpError::new(RdpErrorKind::InvalidSize))
            }
        },
        FieldValue::U32Le(_) => {
            if end - pos >= 4 {
                let x: u32 = input[pos] as u32 | ((input[pos + 1] as u32) << 8) | ((input[pos
                    + 2] as u32) << 16) | ((input[pos + 3] as u32) << 24);
                Result::Ok((FieldValue::U32Le(x), pos + 4))
            } else {
                Result::Err(RdpError::new(RdpErrorKind::InvalidSize))
            }
        },
        FieldValue::U32Be(_) => {
            if end - pos >= 4 {
                let x: u32 = ((input[pos] as u32) << 24) | ((input[pos + 1] as u32) << 16) | ((
                    input[pos + 2] as u32) << 8) | input[pos + 3] as u32;
                Result::Ok((FieldValue::U32Be(x), pos + 4))
            } else {
                Result::Err(RdpError::new(RdpErrorKind::InvalidSize))
            }
        },
        FieldValue::Bytes(b) => {
            let n: usize = b.len();
            if n <= end - pos {
                Result::Ok((FieldValue::Bytes(copy_range(input, pos, pos + n)), pos + n))
            } else {
                Result::Err(RdpError::new(RdpErrorKind::InvalidSize))
            }
        },
        FieldValue::DynBytes(_) => {
            match rlen {
                Option::None => Result::Err(RdpError::new(RdpErrorKind::InvalidData)),
                Option::Some(n) => {
                    if n <= (end - pos) as u64 {
                        let nn: usize = n as usize;
                        Result::Ok(
                            (FieldValue::DynBytes(copy_range(input, pos, pos + nn)), pos + nn),
                        )
                    } else {
                        Result::Err(RdpError::new(RdpErrorKind::InvalidSize))
                    }
                },
            }
        },
        FieldValue::CheckU8(c) => {
            if end - pos >= 1 {
                if input[pos] == *c {
                    Result::Ok((FieldValue::CheckU8(*c), pos + 1))
                } else {
                    Result::Err(RdpError::new(RdpErrorKind::InvalidConst))
                }
            } else {
                Result::Err(RdpError::new(RdpErrorKind::InvalidSize))
            }
        },
        FieldValue::CheckU16Le(c) => {
            if end - pos >= 2 {
                let x: u16 = input[pos] as u16 | ((input[pos + 1] as u16) << 8);
                if x == *c {
                    Result::Ok((FieldValue::CheckU16Le(*c), pos + 2))
                } else {
                    Result::Err(RdpError::new(RdpErrorKind::InvalidConst))
                }
            } else {
                Result::Err(RdpError::new(RdpErrorKind::InvalidSize))
            }
        },
        FieldValue::OptU32Le(_) => {
            if end - pos >= 4 {
                let x: u32 = input[pos] as u32 | ((input[pos + 1] as u32) << 8) | ((input[pos
                    + 2] as u32) << 16) | ((input[pos + 3] as u32) << 24);
                Result::Ok((FieldValue::OptU32Le(Option::Some(x)), pos + 4))
            } else {
                Result::Ok((FieldValue::OptU32Le(Option::None), pos))
            }
        },
        FieldValue::ArrayU16Le(_) => {
            let n: u64 = match rlen {
                Option::Some(n) => n,
                Option::None => (end - pos) as u64,
            };
            if n % 2 != 0 {
                return Result::Err(RdpError::new(RdpErrorKind::InvalidSize));
            }
            if n > (end - pos) as u64 {
                return Result::Err(RdpError::new(RdpErrorKind::InvalidSize));
            }
            let nn: usize = n as usize;
            let half: usize = nn / 2;
            let mut a: Vec<u16> = Vec::new();
            let mut k: usize = 0;
            while k < half
                invariant
                    k <= half,
                    pos + 2 * half <= end <= input@.len(),
                    a@ == dec_u16s(input@, pos as int, k as int),
                decreases half - k,
            {
                let x: u16 = input[pos + 2 * k] as u16 | ((input[pos + 2 * k + 1] as u16) << 8);
                a.push(x);
                assert(a@ =~= dec_u16s(input@, pos as int, k + 1 as int));
                k = k + 1;
            }
            proof {
                let sn: int = match olen(rlen) {
                    Option::Some(m) => m,
                    Option::None => end - pos,
                };
                assert(sn == n as int);
                assert(a@ == dec_u16s(input@, pos as int, sn / 2));
            }
            Result::Ok((FieldValue::ArrayU16Le(a), pos + nn))
        },
        FieldValue::Nested(c) => {
            match read_fields_exec(&c.fields, 0, Vec::new(), input, pos, end) {
                Result::Ok((fs, p2)) => Result::Ok(
                    (FieldValue::Nested(Component { fields: fs }), p2),
                ),
                Result::Err(e) => Result::Err(e),
            }
        },
    }
}

/// Decodes the fields of a template from index `i` on, executably.
fn read_fields_exec(
    tmpl: &Vec<Field>,
    i: usize,
    done: Vec<Field>,
    input: &[u8],
    pos: usize,
    end: usize,
) -> (r: Result<(Vec<Field>, usize), RdpError>)
    requires
        i <= tmpl@.len(),
        pos <= end <= input@.len(),
    ensures
        match r {
            Result::Ok(t) => spec_read_fields(
                view_fields_from(tmpl@, 0),
                i as int,
                view_fields_from(done@, 0),
                input@,
                pos as int,
                end as int,
            ) == Result::<(Seq<SpecField>, int), RdpErrorKind>::Ok(
                (view_fields_from(t.0@, 0), t.1 as int),
            ) && pos <= t.1 <= end,
            Result::Err(e) => spec_read_fields(
                view_fields_from(tmpl@, 0),
                i as int,
                view_fields_from(done@, 0),
                input@,
                pos as int,
                end as int,
            ) == Result::<(Seq<SpecField>, int), RdpErrorKind>::Err(e.kind),
        },
    decreases tmpl@, tmpl@.len() - i,
{
    proof {
        lemma_view_fields_from(tmpl@, 0);
    }
    if i >= tmpl.len() {
        return Result::Ok((done, pos));
    }
    match rule_len_exec(&tmpl[i].rule, &done) {
        Result::Err(e) => Result::Err(e),
        Result::Ok(rlen) => {
            match read_value_exec(&tmpl[i].value, rlen, input, pos, end) {
                Result::Err(e) => Result::Err(e),
                Result::Ok((nv, p2)) => {
                    let f = Field { name: tmpl[i].name.clone(), rule: tmpl[i].rule, value: nv };
                    proof {
                        lemma_view_fields_push(done@, f);
                    }
                    let mut done2 = done;
                    done2.push(f);
                    read_fields_exec(tmpl, i + 1, done2, input, p2, end)
                },
            }
        },
    }
}

impl Component {
    /// Fills this component, used as a template, from `input[pos..end]`, and
    /// returns the position after the last byte read. On an error the
    /// component is unchanged and the error's kind is the one the decoding
    /// model gives.
    pub fn read(&mut self, input: &[u8], pos: usize, end: usize) -> (r: RdpResult<usize>)
        requires
            pos <= end <= input@.len(),
        ensures
            r matches Result::Ok(p) ==> spec_read_component(
                old(self)@,
                input@,
                pos as int,
                end as int,
            ) == Result::<(SpecComponent, int), RdpErrorKind>::Ok((final(self)@, p as int))
                && pos <= p <= end,
            r matches Result::Err(e) ==> spec_read_component(
                old(self)@,
                input@,
                pos as int,
                end as int,
            ) == Result::<(SpecComponent, int), RdpErrorKind>::Err(e.kind) && *final(self)
                == *old(self),
    {
        match read_fields_exec(&self.fields, 0, Vec::new(), input, pos, end) {
            Result::Ok((fs, p)) => {
                self.fields = fs;
                Result::Ok(p)
            },
            Result::Err(e) => Result::Err(e),
        }
    }
}

// ---------------------------------------------------------------------------
// Well-formedness: what a component must satisfy for decoding to be the left
// inverse of encoding.
// ---------------------------------------------------------------------------

/// The wire length of a rule-dependent field, where the field is one.
pub open spec fn dyn_len(v: SpecFieldValue) -> Option<int> {
    match v {
        SpecFieldValue::DynBytes(b) => Option::Some(b.len() as int),
        SpecFieldValue::ArrayU16Le(a) => Option::Some(2 * (a.len() as int)),
        _ => Option::None,
    }
}

/// The length rule of field `i` is sound: it points back to an earlier
/// integer field whose value agrees with the dependent field's length.
pub open spec fn rule_ok(fields: Seq<SpecField>, i: int) -> bool {
    match fields[i].rule {
        Option::None => dyn_len(fields[i].value) is None,
        Option::Some(r) => 0 <= r.gov < i && match (
            int_val(fields[r.gov as int].value),
            dyn_len(fields[i].value),
        ) {
            (Option::Some(v), Option::Some(d)) => v * r.factor - r.sub == d,
            _ => false,
        },
    }
}

/// No absent optional field stands at or after `i`, not even inside a
/// nested component.
pub open spec fn opt_none_free_from(fields: Seq<SpecField>, i: int) -> bool
    decreases fields, fields.len() - i,
{
    if i < 0 || i >= fields.len() {
        true
    } else {
        &&& fields[i].value != SpecFieldValue::OptU32Le(Option::<u32>::None)
        &&& match fields[i].value {
            SpecFieldValue::Nested(c) => opt_none_free_from(c.fields, 0),
            _ => true,
        }
        &&& opt_none_free_from(fields, i + 1)
    }
}

/// Every field from `i` on is an absent optional.
pub open spec fn opt_none_tail(fields: Seq<SpecField>, i: int) -> bool {
    forall|j: int|
        i <= j < fields.len() ==> fields[j].value == SpecFieldValue::OptU32Le(
            Option::<u32>::None,
        )
}

/// Well-formedness of a field sequence from `i` on: length rules are sound,
/// absent optionals stand only in a tail of absent optionals, and a nested
/// component is itself well formed and, unless it is the last field, holds
/// no absent optional.
pub open spec fn wf_fields_from(fields: Seq<SpecField>, i: int) -> bool
    decreases fields, fields.len() - i,
{
    if i < 0 || i >= fields.len() {
        true
    } else {
        &&& rule_ok(fields, i)
        &&& (fields[i].value == SpecFieldValue::OptU32Le(Option::<u32>::None)
            ==> opt_none_tail(fields, i + 1))
        &&& match fields[i].value {
            SpecFieldValue::Nested(c) => wf_fields_from(c.fields, 0) && (i == fields.len() - 1
                || opt_none_free_from(c.fields, 0)),
            _ => true,
        }
        &&& wf_fields_from(fields, i + 1)
    }
}

/// A well-formed component: decoding its own encoding gives it back.
pub open spec fn wf_component(c: SpecComponent) -> bool {
    wf_fields_from(c.fields, 0)
}

proof fn lemma_wf_at(fields: Seq<SpecField>, i: int, j: int)
    requires
        wf_fields_from(fields, i),
        0 <= i <= j < fields.len(),
    ensures
        rule_ok(fields, j),
        fields[j].value == SpecFieldValue::OptU32Le(Option::<u32>::None) ==> opt_none_tail(
            fields,
            j + 1,
        ),
        match fields[j].value {
            SpecFieldValue::Nested(c) => wf_fields_from(c.fields, 0) && (j == fields.len() - 1
                || opt_none_free_from(c.fields, 0)),
            _ => true,
        },
    decreases j - i,
{
    if i < j {
        lemma_wf_at(fields, i + 1, j);
    }
}

proof fn lemma_enc_none_tail(fields: Seq<SpecField>, i: int)
    requires
        0 <= i <= fields.len(),
        opt_none_tail(fields, i),
    ensures
        enc_fields_from(fields, i).len() == 0,
    decreases fields.len() - i,
{
    if i < fields.len() {
        assert(fields[i].value == SpecFieldValue::OptU32Le(Option::<u32>::None));
        assert(enc_value(fields[i].value) =~= Seq::<u8>::empty());
        lemma_enc_none_tail(fields, i + 1);
        assert(enc_fields_from(fields, i) == enc_value(fields[i].value) + enc_fields_from(
            fields,
            i + 1,
        ));
    }
}

proof fn lemma_subrange_split(input: Seq<u8>, pos: int, mid: int, stop: int, a: Seq<u8>, b: Seq<u8>)
    requires
        0 <= pos <= mid <= stop <= input.len(),
        input.subrange(pos, stop) == a + b,
        a.len() == mid - pos,
    ensures
        input.subrange(pos, mid) == a,
        input.subrange(mid, stop) == b,
{
    let al = a.len() as int;
    let bl = b.len() as int;
    assert(input.subrange(pos, stop).len() == (a + b).len());
    assert(input.subrange(pos, stop).len() == stop - pos);
    assert((a + b).len() == al + bl);
    assert(stop - pos == al + bl);
    assert forall|k: int| 0 <= k < al implies input.subrange(pos, mid)[k] == a[k] by {
        assert((a + b)[k] == a[k]);
        assert(input.subrange(pos, stop)[k] == input[pos + k]);
    }
    assert(input.subrange(pos, mid) =~= a);
    assert forall|k: int| 0 <= k < bl implies input.subrange(mid, stop)[k] == b[k] by {
        assert((a + b)[al + k] == b[k]);
        assert(input.subrange(pos, stop)[al + k] == input[pos + al + k]);
    }
    assert(input.subrange(mid, stop) =~= b);
}

// ---------------------------------------------------------------------------
// Decoding is the left inverse of encoding: reading the canonical encoding
// of a well-formed component against itself as template gives the component
// back, and re-encoding any fully consumed decode gives the input back.
// ---------------------------------------------------------------------------

proof fn lemma_read_value_of_enc(
    v: SpecFieldValue,
    rlen: Option<int>,
    input: Seq<u8>,
    pos: int,
    end: int,
)
    requires
        0 <= pos,
        pos + enc_value(v).len() <= end,
        end <= input.len(),
        input.subrange(pos, pos + enc_value(v).len() as int) == enc_value(v),
        match v {
            SpecFieldValue::DynBytes(b) => rlen == Option::Some(b.len() as int),
            SpecFieldValue::ArrayU16Le(a) => rlen == Option::Some(2 * (a.len() as int)),
            _ => true,
        },
        v == SpecFieldValue::OptU32Le(Option::<u32>::None) ==> end == pos,
        match v {
            SpecFieldValue::Nested(c) => wf_fields_from(c.fields, 0) && (opt_none_free_from(
                c.fields,
                0,
            ) || end == pos + enc_value(v).len()),
            _ => true,
        },
    ensures
        spec_read_value(v, rlen, input, pos, end) == Result::<
            (SpecFieldValue, int),
            RdpErrorKind,
        >::Ok((v, pos + enc_value(v).len())),
    decreases v, 0int,
{
    match v {
        SpecFieldValue::U8(x) => {
            assert(input[pos] == enc_value(v)[0]);
        },
        SpecFieldValue::U16Le(x) => {
            assert(input[pos] == enc_value(v)[0]);
            assert(input[pos + 1] == enc_value(v)[1]);
            lemma_le16_roundtrip(x);
        },
        SpecFieldValue::U16Be(x) => {
            assert(input[pos] == enc_value(v)[0]);
            assert(input[pos + 1] == enc_value(v)[1]);
            lemma_be16_roundtrip(x);
        },
        SpecFieldValue::U32Le(x) => {
            assert(input[pos] == enc_value(v)[0]);
            assert(input[pos + 1] == enc_value(v)[1]);
            assert(input[pos + 2] == enc_value(v)[2]);
            assert(input[pos + 3] == enc_value(v)[3]);
            lemma_le32_roundtrip(x);
        },
        SpecFieldValue::U32Be(x) => {
            assert(input[pos] == enc_value(v)[0]);
            assert(input[pos + 1] == enc_value(v)[1]);
            assert(input[pos + 2] == enc_value(v)[2]);
            assert(input[pos + 3] == enc_value(v)[3]);
            lemma_be32_roundtrip(x);
        },
        SpecFieldValue::Bytes(b) => {
            assert(input.subrange(pos, pos + b.len() as int) =~= b);
        },
        SpecFieldValue::DynBytes(b) => {
            assert(input.subrange(pos, pos + b.len() as int) =~= b);
        },
        SpecFieldValue::CheckU8(c) => {
            assert(input[pos] == enc_value(v)[0]);
        },
        SpecFieldValue::CheckU16Le(c) => {
            assert(input[pos] == enc_value(v)[0]);
            assert(input[pos + 1] == enc_value(v)[1]);
            lemma_le16_roundtrip(c);
        },
        SpecFieldValue::OptU32Le(o) => {
            match o {
                Option::Some(x) => {
                    assert(input[pos] == enc_value(v)[0]);
                    assert(input[pos + 1] == enc_value(v)[1]);
                    assert(input[pos + 2] == enc_value(v)[2]);
                    assert(input[pos + 3] == enc_value(v)[3]);
                    lemma_le32_roundtrip(x);
                },
                Option::None => {
                    assert(end == pos);
                },
            }
        },
        SpecFieldValue::ArrayU16Le(a) => {
            let n = 2 * a.len() as int;
            assert(n % 2 == 0);
            assert forall|k: int| 0 <= k < a.len() implies dec_u16s(input, pos, a.len() as int)[k]
                == a[k] by {
                assert((2 * k) % 2 == 0 && (2 * k) / 2 == k && (2 * k + 1) % 2 == 1 && (2 * k
                    + 1) / 2 == k) by (nonlinear_arith);
                assert(input[pos + 2 * k] == enc_value(v)[2 * k]);
                assert(input[pos + 2 * k + 1] == enc_value(v)[2 * k + 1]);
                lemma_le16_roundtrip(a[k]);
            }
            assert(dec_u16s(input, pos, n / 2) =~= a);
        },
        SpecFieldValue::Nested(c) => {
            lemma_read_fields_of_enc(c.fields, 0, input, pos, end);
            assert(c.fields.take(0) =~= Seq::<SpecField>::empty());
            assert(SpecComponent { fields: c.fields } =~= c);
        },
    }
}

proof fn lemma_read_fields_of_enc(fields: Seq<SpecField>, i: int, input: Seq<u8>, pos: int, end: int)
    requires
        wf_fields_from(fields, 0),
        0 <= i <= fields.len(),
        0 <= pos,
        pos + enc_fields_from(fields, i).len() <= end,
        end <= input.len(),
        input.subrange(pos, pos + enc_fields_from(fields, i).len() as int) == enc_fields_from(
            fields,
            i,
        ),
        opt_none_free_from(fields, i) || end == pos + enc_fields_from(fields, i).len(),
    ensures
        spec_read_fields(fields, i, fields.take(i), input, pos, end) == Result::<
            (Seq<SpecField>, int),
            RdpErrorKind,
        >::Ok((fields, pos + enc_fields_from(fields, i).len() as int)),
    decreases fields, fields.len() - i,
{
    if i >= fields.len() {
        assert(fields.take(i) =~= fields);
    } else {
        lemma_wf_at(fields, 0, i);
        let hv = fields[i].value;
        let l0 = enc_value(hv).len() as int;
        let lr = enc_fields_from(fields, i + 1).len() as int;
        lemma_subrange_split(
            input,
            pos,
            pos + l0,
            pos + l0 + lr,
            enc_value(hv),
            enc_fields_from(fields, i + 1),
        );
        // The rule, if any, resolves to exactly the dependent field's length.
        let rlen: Option<int> = match fields[i].rule {
            Option::None => Option::None,
            Option::Some(r) => Option::Some(
                int_val(fields[r.gov as int].value).unwrap() * r.factor - r.sub,
            ),
        };
        assert(spec_rule_len(fields[i].rule, fields.take(i)) == Result::<
            Option<int>,
            RdpErrorKind,
        >::Ok(rlen)) by {
            match fields[i].rule {
                Option::None => {},
                Option::Some(r) => {
                    assert(fields.take(i)[r.gov as int] == fields[r.gov as int]);
                    assert(dyn_len(hv) is Some);
                    assert(dyn_len(hv).unwrap() >= 0);
                },
            }
        }
        // An absent optional is followed by absent optionals only, so the
        // budget ends right here.
        if hv == SpecFieldValue::OptU32Le(Option::<u32>::None) {
            assert(opt_none_tail(fields, i + 1));
            lemma_enc_none_tail(fields, i + 1);
            assert(!opt_none_free_from(fields, i));
            assert(end == pos);
        }
        match hv {
            SpecFieldValue::Nested(c) => {
                if !opt_none_free_from(fields, i) {
                    assert(end == pos + l0 + lr);
                    if i == fields.len() - 1 {
                        assert(lr == 0);
                    }
                }
            },
            _ => {},
        }
        lemma_read_value_of_enc(hv, rlen, input, pos, end);
        let f2 = SpecField { name: fields[i].name, rule: fields[i].rule, value: hv };
        assert(f2 =~= fields[i]);
        assert(fields.take(i).push(fields[i]) =~= fields.take(i + 1));
        lemma_read_fields_of_enc(fields, i + 1, input, pos + l0, end);
    }
}

/// Decoding the canonical encoding of a well-formed component, against the
/// component itself as template, yields the component and consumes the
/// whole encoding.
pub proof fn lemma_decode_of_encode(c: SpecComponent)
    requires
        wf_component(c),
    ensures
        spec_read_component(c, enc_component(c), 0, enc_component(c).len() as int) == Result::<
            (SpecComponent, int),
            RdpErrorKind,
        >::Ok((c, enc_component(c).len() as int)),
{
    let input = enc_component(c);
    assert(input.subrange(0, input.len() as int) =~= input);
    lemma_read_fields_of_enc(c.fields, 0, input, 0, input.len() as int);
    assert(c.fields.take(0) =~= Seq::<SpecField>::empty());
    assert(SpecComponent { fields: c.fields } =~= c);
}

proof fn lemma_enc_of_read_value(
    tmpl: SpecFieldValue,
    rlen: Option<int>,
    input: Seq<u8>,
    pos: int,
    end: int,
    v: SpecFieldValue,
    p2: int,
)
    requires
        0 <= pos <= end <= input.len(),
        spec_read_value(tmpl, rlen, input, pos, end) == Result::<
            (SpecFieldValue, int),
            RdpErrorKind,
        >::Ok((v, p2)),
    ensures
        pos <= p2 <= end,
        enc_value(v) == input.subrange(pos, p2),
    decreases tmpl, 0int,
{
    match tmpl {
        SpecFieldValue::U8(_) => {
            assert(enc_value(v) =~= input.subrange(pos, p2));
        },
        SpecFieldValue::U16Le(_) => {
            lemma_le16_bytes(input[pos], input[pos + 1]);
            assert(enc_value(v) =~= input.subrange(pos, p2));
        },
        SpecFieldValue::U16Be(_) => {
            lemma_be16_bytes(input[pos], input[pos + 1]);
            assert(enc_value(v) =~= input.subrange(pos, p2));
        },
        SpecFieldValue::U32Le(_) => {
            lemma_le32_bytes(input[pos], input[pos + 1], input[pos + 2], input[pos + 3]);
            assert(enc_value(v) =~= input.subrange(pos, p2));
        },
        SpecFieldValue::U32Be(_) => {
            lemma_be32_bytes(input[pos], input[pos + 1], input[pos + 2], input[pos + 3]);
            assert(enc_value(v) =~= input.subrange(pos, p2));
        },
        SpecFieldValue::Bytes(_) => {
            assert(enc_value(v) =~= input.subrange(pos, p2));
        },
        SpecFieldValue::DynBytes(_) => {
            assert(enc_value(v) =~= input.subrange(pos, p2));
        },
        SpecFieldValue::CheckU8(_) => {
            assert(enc_value(v) =~= input.subrange(pos, p2));
        },
        SpecFieldValue::CheckU16Le(c) => {
            lemma_le16_bytes(input[pos], input[pos + 1]);
            assert(enc_value(v) =~= input.subrange(pos, p2));
        },
        SpecFieldValue::OptU32Le(_) => {
            if pos + 4 <= end {
                lemma_le32_bytes(input[pos], input[pos + 1], input[pos + 2], input[pos + 3]);
                assert(enc_value(v) =~= input.subrange(pos, p2));
            } else {
                assert(enc_value(v) =~= input.subrange(pos, p2));
            }
        },
        SpecFieldValue::ArrayU16Le(_) => {
            let n = match rlen {
                Option::Some(m) => m,
                Option::None => end - pos,
            };
            assert forall|j: int| 0 <= j < n implies enc_value(v)[j] == input[pos + j] by {
                let k = j / 2;
                assert(0 <= k < n / 2 && (2 * k == j || 2 * k + 1 == j)) by (nonlinear_arith)
                    requires
                        0 <= j < n,
                        k == j / 2,
                        n % 2 == 0,
                ;
                lemma_le16_bytes(input[pos + 2 * k], input[pos + 2 * k + 1]);
            }
            assert(enc_value(v) =~= input.subrange(pos, p2));
        },
        SpecFieldValue::Nested(c) => {
            match spec_read_fields(c.fields, 0, Seq::empty(), input, pos, end) {
                Result::Ok((fs, q)) => {
                    lemma_enc_of_read_fields(c.fields, 0, Seq::empty(), input, pos, end, fs, q);
                },
                Result::Err(_) => {},
            }
        },
    }
}

proof fn lemma_enc_of_read_fields(
    tmpl: Seq<SpecField>,
    i: int,
    done: Seq<SpecField>,
    input: Seq<u8>,
    pos: int,
    end: int,
    out: Seq<SpecField>,
    p2: int,
)
    requires
        0 <= i <= tmpl.len(),
        0 <= pos <= end <= input.len(),
        spec_read_fields(tmpl, i, done, input, pos, end) == Result::<
            (Seq<SpecField>, int),
            RdpErrorKind,
        >::Ok((out, p2)),
    ensures
        pos <= p2 <= end,
        out.len() == done.len() + tmpl.len() - i,
        out.take(done.len() as int) == done,
        enc_fields_from(out, done.len() as int) == input.subrange(pos, p2),
    decreases tmpl, tmpl.len() - i,
{
    if i >= tmpl.len() {
        assert(out == done);
        assert(out.take(done.len() as int) =~= done);
        assert(enc_fields_from(out, done.len() as int) =~= input.subrange(pos, p2));
    } else {
        match spec_rule_len(tmpl[i].rule, done) {
            Result::Err(_) => {},
            Result::Ok(rlen) => {
                match spec_read_value(tmpl[i].value, rlen, input, pos, end) {
                    Result::Err(_) => {},
                    Result::Ok((nv, pm)) => {
                        lemma_enc_of_read_value(tmpl[i].value, rlen, input, pos, end, nv, pm);
                        let f2 = SpecField {
                            name: tmpl[i].name,
                            rule: tmpl[i].rule,
                            value: nv,
                        };
                        lemma_enc_of_read_fields(
                            tmpl,
                            i + 1,
                            done.push(f2),
                            input,
                            pm,
                            end,
                            out,
                            p2,
                        );
                        assert(out.take(done.len() as int) =~= done) by {
                            assert(forall|k: int|
                                0 <= k < done.len() ==> out.take(done.len() as int + 1)[k]
                                    == #[trigger] done.push(f2)[k]);
                        }
                        assert(out[done.len() as int] == f2) by {
                            assert(out.take(done.len() as int + 1)[done.len() as int] == done.push(
                                f2,
                            )[done.len() as int]);
                        }
                        assert(enc_fields_from(out, done.len() as int) =~= input.subrange(
                            pos,
                            p2,
                        )) by {
                            assert(enc_fields_from(out, done.len() as int) == enc_value(nv)
                                + enc_fields_from(out, done.len() as int + 1));
                        }
                    },
                }
            },
        }
    }
}

/// Re-encoding a decode that consumed its whole input gives the input back:
/// `encode(decode(b)) == b` for every `b` that decodes completely.
pub proof fn lemma_encode_of_decode(tmpl: SpecComponent, input: Seq<u8>, out: SpecComponent, p2: int)
    requires
        spec_read_component(tmpl, input, 0, input.len() as int) == Result::<
            (SpecComponent, int),
            RdpErrorKind,
        >::Ok((out, p2)),
        p2 == input.len(),
    ensures
        enc_component(out) == input,
{
    match spec_read_fields(tmpl.fields, 0, Seq::empty(), input, 0, input.len() as int) {
        Result::Ok((fs, q)) => {
            lemma_enc_of_read_fields(
                tmpl.fields,
                0,
                Seq::empty(),
                input,
                0,
                input.len() as int,
                fs,
                q,
            );
            assert(input.subrange(0, input.len() as int) =~= input);
        },
        Result::Err(_) => {},
    }
}

// ---------------------------------------------------------------------------
// Structural access: in-memory lookup by field name, and typed views.
// ---------------------------------------------------------------------------

/// The first field named `name` from index `i` on, if any.
pub open spec fn spec_get_from(fields: Seq<SpecField>, name: Seq<char>, i: int) -> Option<
    SpecFieldValue,
>
    decreases fields.len() - i,
{
    if i < 0 || i >= fields.len() {
        Option::None
    } else if fields[i].name == name {
        Option::Some(fields[i].value)
    } else {
        spec_get_from(fields, name, i + 1)
    }
}

/// The value of the field named `name`, if any.
pub open spec fn spec_get(c: SpecComponent, name: Seq<char>) -> Option<SpecFieldValue> {
    spec_get_from(c.fields, name, 0)
}

/// The 8-bit reading of a looked-up field.
pub open spec fn as_u8(o: Option<SpecFieldValue>) -> Option<u8> {
    match o {
        Option::Some(SpecFieldValue::U8(x)) => Option::Some(x),
        Option::Some(SpecFieldValue::CheckU8(x)) => Option::Some(x),
        _ => Option::None,
    }
}

/// The 16-bit reading of a looked-up field.
pub open spec fn as_u16(o: Option<SpecFieldValue>) -> Option<u16> {
    match o {
        Option::Some(SpecFieldValue::U16Le(x)) => Option::Some(x),
        Option::Some(SpecFieldValue::U16Be(x)) => Option::Some(x),
        Option::Some(SpecFieldValue::CheckU16Le(x)) => Option::Some(x),
        _ => Option::None,
    }
}

/// The 32-bit reading of a looked-up field.
pub open spec fn as_u32(o: Option<SpecFieldValue>) -> Option<u32> {
    match o {
        Option::Some(SpecFieldValue::U32Le(x)) => Option::Some(x),
        Option::Some(SpecFieldValue::U32Be(x)) => Option::Some(x),
        Option::Some(SpecFieldValue::OptU32Le(Option::Some(x))) => Option::Some(x),
        _ => Option::None,
    }
}

/// The byte-vector reading of a looked-up field.
pub open spec fn as_bytes(o: Option<SpecFieldValue>) -> Option<Seq<u8>> {
    match o {
        Option::Some(SpecFieldValue::Bytes(b)) => Option::Some(b),
        Option::Some(SpecFieldValue::DynBytes(b)) => Option::Some(b),
        _ => Option::None,
    }
}

/// The 16-bit-array reading of a looked-up field.
pub open spec fn as_u16_array(o: Option<SpecFieldValue>) -> Option<Seq<u16>> {
    match o {
        Option::Some(SpecFieldValue::ArrayU16Le(a)) => Option::Some(a),
        _ => Option::None,
    }
}

impl Component {
    /// Looks a field up by name; declaration order decides on duplicates.
    pub fn get(&self, name: &str) -> (r: Option<&FieldValue>)
        ensures
            match r {
                Option::Some(v) => spec_get(self@, name@) == Option::Some(view_value(*v)),
                Option::None => spec_get(self@, name@) is None,
            },
    {
        proof {
            lemma_view_fields_from(self.fields@, 0);
        }
        let q: String = name.to_owned();
        let n: usize = self.fields.len();
        let mut i: usize = 0;
        while i < n
            invariant
                n == self.fields@.len(),
                i <= n,
                q@ == name@,
                spec_get(self@, name@) == spec_get_from(
                    view_fields_from(self.fields@, 0),
                    name@,
                    i as int,
                ),
            decreases n - i,
        {
            proof {
                lemma_view_fields_from(self.fields@, 0);
            }
            if self.fields[i].name == q {
                return Option::Some(&self.fields[i].value);
            }
            i = i + 1;
        }
        Option::None
    }

    /// Reads the named field as an 8-bit value; `InvalidCast` where the
    /// field is missing or of another kind.
    pub fn cast_u8(&self, name: &str) -> (r: RdpResult<u8>)
        ensures
            r matches Result::Ok(x) ==> as_u8(spec_get(self@, name@)) == Option::Some(x),
            r matches Result::Err(e) ==> as_u8(spec_get(self@, name@)) is None && e.kind
                == RdpErrorKind::InvalidCast,
    {
        match self.get(name) {
            Option::Some(FieldValue::U8(x)) => Result::Ok(*x),
            Option::Some(FieldValue::CheckU8(x)) => Result::Ok(*x),
            _ => Result::Err(RdpError::new(RdpErrorKind::InvalidCast)),
        }
    }

    /// Reads the named field as a 16-bit value; `InvalidCast` where the
    /// field is missing or of another kind.
    pub fn cast_u16(&self, name: &str) -> (r: RdpResult<u16>)
        ensures
            r matches Result::Ok(x) ==> as_u16(spec_get(self@, name@)) == Option::Some(x),
            r matches Result::Err(e) ==> as_u16(spec_get(self@, name@)) is None && e.kind
                == RdpErrorKind::InvalidCast,
    {
        match self.get(name) {
            Option::Some(FieldValue::U16Le(x)) => Result::Ok(*x),
            Option::Some(FieldValue::U16Be(x)) => Result::Ok(*x),
            Option::Some(FieldValue::CheckU16Le(x)) => Result::Ok(*x),
            _ => Result::Err(RdpError::new(RdpErrorKind::InvalidCast)),
        }
    }

    /// Reads the named field as a 32-bit value; `InvalidCast` where the
    /// field is missing, absent, or of another kind.
    pub fn cast_u32(&self, name: &str) -> (r: RdpResult<u32>)
        ensures
            r matches Result::Ok(x) ==> as_u32(spec_get(self@, name@)) == Option::Some(x),
            r matches Result::Err(e) ==> as_u32(spec_get(self@, name@)) is None && e.kind
                == RdpErrorKind::InvalidCast,
    {
        match self.get(name) {
            Option::Some(FieldValue::U32Le(x)) => Result::Ok(*x),
            Option::Some(FieldValue::U32Be(x)) => Result::Ok(*x),
            Option::Some(FieldValue::OptU32Le(Option::Some(x))) => Result::Ok(*x),
            _ => Result::Err(RdpError::new(RdpErrorKind::InvalidCast)),
        }
    }

    /// Reads the named field as opaque bytes; `InvalidCast` where the field
    /// is missing or of another kind.
    pub fn cast_bytes(&self, name: &str) -> (r: RdpResult<&Vec<u8>>)
        ensures
            r matches Result::Ok(b) ==> as_bytes(spec_get(self@, name@)) == Option::Some(b@),
            r matches Result::Err(e) ==> as_bytes(spec_get(self@, name@)) is None && e.kind
                == RdpErrorKind::InvalidCast,
    {
        match self.get(name) {
            Option::Some(FieldValue::Bytes(b)) => Result::Ok(b),
            Option::Some(FieldValue::DynBytes(b)) => Result::Ok(b),
            _ => Result::Err(RdpError::new(RdpErrorKind::InvalidCast)),
        }
    }

    /// Reads the named field as an array of 16-bit values; `InvalidCast`
    /// where the field is missing or of another kind.
    pub fn cast_u16_array(&self, name: &str) -> (r: RdpResult<&Vec<u16>>)
        ensures
            r matches Result::Ok(a) ==> as_u16_array(spec_get(self@, name@)) == Option::Some(
                a@,
            ),
            r matches Result::Err(e) ==> as_u16_array(spec_get(self@, name@)) is None && e.kind
                == RdpErrorKind::InvalidCast,
    {
        match self.get(name) {
            Option::Some(FieldValue::ArrayU16Le(a)) => Result::Ok(a),
            _ => Result::Err(RdpError::new(RdpErrorKind::InvalidCast)),
        }
    }
}

/// Builds a field without a length rule.
pub fn field(name: &str, value: FieldValue) -> (f: Field)
    ensures
        f@ == (SpecField { name: name@, rule: Option::<LenRule>::None, value: view_value(value) }),
        f.name@ == name@,
        f.rule is None,
        f.value == value,
{
    Field { name: name.to_owned(), rule: Option::None, value }
}

/// Builds a field whose wire length is `value(gov) * factor - sub`.
pub fn field_with_rule(name: &str, gov: usize, factor: u16, sub: u16, value: FieldValue) -> (f:
    Field)
    ensures
        f@ == (SpecField {
            name: name@,
            rule: Option::Some(LenRule { gov, factor, sub }),
            value: view_value(value),
        }),
        f.name@ == name@,
        f.rule == Option::Some(LenRule { gov, factor, sub }),
        f.value == value,
{
    Field { name: name.to_owned(), rule: Option::Some(LenRule { gov, factor, sub }), value }
}

/// A field that carries no rule, no rule-driven length, no absent optional
/// and no nested component.
pub open spec fn plain_field(f: SpecField) -> bool {
    &&& f.rule is None
    &&& dyn_len(f.value) is None
    &&& f.value != SpecFieldValue::OptU32Le(Option::<u32>::None)
    &&& !(f.value is Nested)
}

/// A sequence of plain fields is well formed.
pub proof fn lemma_wf_plain(fields: Seq<SpecField>, i: int)
    requires
        0 <= i <= fields.len(),
        forall|j: int| i <= j < fields.len() ==> plain_field(#[trigger] fields[j]),
    ensures
        wf_fields_from(fields, i),
    decreases fields.len() - i,
{
    if i < fields.len() {
        lemma_wf_plain(fields, i + 1);
    }
}

} // verus!
