use vstd::prelude::*;

use crate::data::{dec_u16s, enc_u16s, lemma_le16_roundtrip};

verus! {

// ---------------------------------------------------------------------------
// UTF-16LE string conversion: RDP carries strings as little-endian UTF-16.
// ---------------------------------------------------------------------------

/// The UTF-16 code units of one character: itself inside the basic plane,
/// else a high and a low surrogate.
pub open spec fn utf16_units_of_char(c: char) -> Seq<u16> {
    if (c as u32) < 0x10000 {
        seq![(c as u32) as u16]
    } else {
        seq![
            (0xd800 + ((c as u32) - 0x10000) / 0x400) as u16,
            (0xdc00 + ((c as u32) - 0x10000) % 0x400) as u16,
        ]
    }
}

/// The UTF-16 code units of a character sequence.
pub open spec fn utf16_units(s: Seq<char>) -> Seq<u16>
    decreases s.len(),
{
    if s.len() == 0 {
        Seq::empty()
    } else {
        utf16_units_of_char(s[0]) + utf16_units(s.drop_first())
    }
}

/// The UTF-16LE byte encoding of a character sequence.
pub open spec fn utf16_le_bytes(s: Seq<char>) -> Seq<u8> {
    enc_u16s(utf16_units(s))
}

/// The characters a UTF-16 code unit sequence decodes to: a high surrogate
/// followed by a low one gives one supplementary character; a lone or
/// trailing surrogate is dropped; every other unit is one character.
pub open spec fn utf16_decode(units: Seq<u16>) -> Seq<char>
    decreases units.len(),
{
    if units.len() == 0 {
        Seq::empty()
    } else if 0xd800 <= units[0] < 0xdc00 {
        if units.len() >= 2 && 0xdc00 <= units[1] < 0xe000 {
            seq![
                ((((units[0] - 0xd800) as u32) * 0x400 + ((units[1] - 0xdc00) as u32)
                    + 0x10000) as u32) as char,
            ] + utf16_decode(units.skip(2))
        } else {
            utf16_decode(units.skip(1))
        }
    } else {
        seq![(units[0] as u32) as char] + utf16_decode(units.skip(1))
    }
}

/// UTF-16 encoding loses nothing: decoding the code units of any character
/// sequence gives the sequence back.
pub proof fn lemma_utf16_units_roundtrip(s: Seq<char>)
    ensures
        utf16_decode(utf16_units(s)) == s,
    decreases s.len(),
{
    if s.len() == 0 {
        assert(utf16_decode(utf16_units(s)) =~= s);
    } else {
        let c = s[0];
        let u = c as u32;
        let units = utf16_units(s);
        let rest = utf16_units(s.drop_first());
        lemma_utf16_units_roundtrip(s.drop_first());
        vstd::utf8::char_is_scalar(c);
        vstd::utf8::char_u32_cast(c, u);
        assert(is_scalar_bound(u));
        if u < 0x10000 {
            assert(units[0] == u as u16);
            assert((u as u16) as u32 == u);
            assert(!(0xd800 <= units[0] < 0xdc00));
            assert(((units[0] as u32) as char) == c);
            assert(units.skip(1) =~= rest);
            assert(utf16_decode(units) == seq![(units[0] as u32) as char] + utf16_decode(
                units.skip(1),
            ));
            assert(utf16_decode(units) =~= s);
        } else {
            let v = (u - 0x10000) as u32;
            assert(v <= 0xfffff);
            assert(v / 0x400 <= 0x3ff && v % 0x400 <= 0x3ff) by (nonlinear_arith)
                requires
                    v <= 0xfffff,
            ;
            assert(v == 0x400 * (v / 0x400) + v % 0x400) by (nonlinear_arith);
            let hi = (0xd800 + v / 0x400) as u16;
            let lo = (0xdc00 + v % 0x400) as u16;
            assert(units[0] == hi && units[1] == lo);
            assert(0xd800 <= hi < 0xdc00 && 0xdc00 <= lo < 0xe000);
            assert((((hi - 0xd800) as u32) * 0x400 + ((lo - 0xdc00) as u32) + 0x10000) as u32
                == u);
            assert((((((units[0] - 0xd800) as u32) * 0x400 + ((units[1] - 0xdc00) as u32)
                + 0x10000) as u32) as char) == c);
            assert(units.skip(2) =~= rest);
            assert(utf16_decode(units) =~= s);
        }
    }
}

/// What `char_is_scalar` gives, spelled out as a bound.
pub open spec fn is_scalar_bound(u: u32) -> bool {
    u <= 0x10ffff && !(0xd800 <= u <= 0xdfff)
}

/// Reading little-endian byte pairs back gives the 16-bit values written.
pub proof fn lemma_enc_dec_u16s(units: Seq<u16>)
    ensures
        dec_u16s(enc_u16s(units), 0, units.len() as int) == units,
{
    assert forall|k: int| 0 <= k < units.len() implies dec_u16s(
        enc_u16s(units),
        0,
        units.len() as int,
    )[k] == units[k] by {
        assert((2 * k) % 2 == 0 && (2 * k) / 2 == k && (2 * k + 1) % 2 == 1 && (2 * k + 1) / 2
            == k) by (nonlinear_arith);
        lemma_le16_roundtrip(units[k]);
    }
    assert(dec_u16s(enc_u16s(units), 0, units.len() as int) =~= units);
}

/// The transform is the identity on a round trip through UTF-16LE bytes:
/// reading the bytes back as little-endian units and decoding them gives
/// the characters that were encoded.
pub proof fn lemma_utf16_le_roundtrip(s: Seq<char>)
    ensures
        utf16_decode(dec_u16s(utf16_le_bytes(s), 0, utf16_units(s).len() as int)) == s,
{
    lemma_enc_dec_u16s(utf16_units(s));
    lemma_utf16_units_roundtrip(s);
}

/// Relies on `str::encode_utf16`: it yields the string's characters encoded
/// as UTF-16 code units, one unit inside the basic plane and a surrogate
/// pair beyond it.
#[verifier::external_body]
fn encode_utf16_units(s: &str) -> (r: Vec<u16>)
    ensures
        r@ == utf16_units(s@),
{
    s.encode_utf16().collect()
}

/// Flattens 16-bit units to little-endian bytes.
fn units_to_le_bytes(units: &Vec<u16>) -> (r: Vec<u8>)
    ensures
        r@ == enc_u16s(units@),
{
    let n: usize = units.len();
    let mut out: Vec<u8> = Vec::new();
    let mut k: usize = 0;
    while k < n
        invariant
            k <= n,
            n == units@.len(),
            out@ == enc_u16s(units@.take(k as int)),
        decreases n - k,
    {
        let x: u16 = units[k];
        out.push((x & 0xff) as u8);
        out.push(((x >> 8) & 0xff) as u8);
        assert(out@ =~= enc_u16s(units@.take(k + 1 as int)));
        k = k + 1;
    }
    assert(units@.take(n as int) =~= units@);
    out
}

/// Conversion to a little-endian UTF-16 byte vector.
pub trait Unicode {
    /// The characters this string holds.
    spec fn chars_view(&self) -> Seq<char>;

    /// Converts the string into its UTF-16LE bytes.
    fn to_utf16_le(&self) -> (r: Vec<u8>)
        ensures
            r@ == utf16_le_bytes(self.chars_view()),
    ;
}

impl Unicode for str {
    open spec fn chars_view(&self) -> Seq<char> {
        self@
    }

    fn to_utf16_le(&self) -> (r: Vec<u8>) {
        let units = encode_utf16_units(self);
        units_to_le_bytes(&units)
    }
}

impl Unicode for String {
    open spec fn chars_view(&self) -> Seq<char> {
        self@
    }

    fn to_utf16_le(&self) -> (r: Vec<u8>) {
        let units = encode_utf16_units(self.as_str());
        units_to_le_bytes(&units)
    }
}

} // verus!
