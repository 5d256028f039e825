use vstd::prelude::*;

use crate::error::{RdpError, RdpErrorKind, RdpResult};

verus! {

// ---------------------------------------------------------------------------
// The PER subset (ITU-T X.691, as T.124 and T.125 use it): one-byte choices,
// selections and set counts, a one- or two-byte length, big-endian 16-bit
// integers, packed numeric strings, octet streams with a length prefix, and
// the fixed object-identifier encoding.
// ---------------------------------------------------------------------------

/// The PER encoding of a length: one byte below 0x80, else two bytes with
/// the high bit of the first set.
pub open spec fn per_length(n: u16) -> Seq<u8> {
    if n <= 0x7f {
        seq![n as u8]
    } else {
        seq![(((n >> 8) & 0x7f) | 0x80) as u8, (n & 0xff) as u8]
    }
}

/// The PER encoding of `n` padding bytes.
pub open spec fn per_padding(n: int) -> Seq<u8> {
    Seq::new(n as nat, |i: int| 0u8)
}

/// The packed encoding of a numeric string: two digits to a byte, the last
/// nibble padded with zero.
pub open spec fn per_numeric_payload(s: Seq<u8>) -> Seq<u8> {
    Seq::new(
        ((s.len() + 1) / 2) as nat,
        |i: int|
            (((s[2 * i] - 0x30) * 16 + if 2 * i + 1 < s.len() {
                (s[2 * i + 1] - 0x30) as int
            } else {
                0
            }) as u8),
    )
}

/// The PER encoding of a numeric string with a known minimum length.
pub open spec fn per_numeric_string(s: Seq<u8>, minimum: int) -> Seq<u8> {
    per_length(if s.len() >= minimum {
        (s.len() - minimum) as u16
    } else {
        0u16
    }) + per_numeric_payload(s)
}

/// The PER encoding of an octet stream with a known minimum length.
pub open spec fn per_octet_stream(b: Seq<u8>, minimum: int) -> Seq<u8> {
    per_length(if b.len() >= minimum {
        (b.len() - minimum) as u16
    } else {
        0u16
    }) + b
}

/// The PER encoding of a six-component object identifier: a length of five,
/// the first two components packed into one byte, then the last four.
pub open spec fn per_object_identifier(oid: Seq<u8>) -> Seq<u8> {
    seq![5u8, (oid[0] * 40 + oid[1]) as u8, oid[2], oid[3], oid[4], oid[5]]
}

/// The big-endian encoding of a 16-bit integer.
pub open spec fn per_integer_16(v: u16) -> Seq<u8> {
    crate::data::be16(v)
}

/// Writes a one-byte choice.
pub fn write_choice(choice: u8, out: &mut Vec<u8>)
    ensures
        final(out)@ == old(out)@ + seq![choice],
{
    out.push(choice);
    assert(out@ =~= old(out)@ + seq![choice]);
}

/// Writes a one-byte selection mask.
pub fn write_selection(selection: u8, out: &mut Vec<u8>)
    ensures
        final(out)@ == old(out)@ + seq![selection],
{
    out.push(selection);
    assert(out@ =~= old(out)@ + seq![selection]);
}

/// Writes a one-byte set count.
pub fn write_number_of_set(n: u8, out: &mut Vec<u8>)
    ensures
        final(out)@ == old(out)@ + seq![n],
{
    out.push(n);
    assert(out@ =~= old(out)@ + seq![n]);
}

/// Writes `n` zero bytes of padding.
pub fn write_padding(n: usize, out: &mut Vec<u8>)
    ensures
        final(out)@ == old(out)@ + per_padding(n as int),
{
    let mut k: usize = 0;
    while k < n
        invariant
            k <= n,
            out@ == old(out)@ + per_padding(k as int),
        decreases n - k,
    {
        out.push(0);
        assert(out@ =~= old(out)@ + per_padding(k + 1 as int));
        k = k + 1;
    }
}

/// Writes a PER length: one byte below 0x80, else two with the high bit of
/// the first set.
pub fn write_length(n: u16, out: &mut Vec<u8>)
    requires
        n <= 0x7fff,
    ensures
        final(out)@ == old(out)@ + per_length(n),
{
    if n <= 0x7f {
        out.push(n as u8);
        assert(out@ =~= old(out)@ + per_length(n));
    } else {
        out.push(((n >> 8) & 0x7f) as u8 | 0x80);
        out.push((n & 0xff) as u8);
        assert((((n >> 8) & 0x7f) as u8 | 0x80) == ((((n >> 8) & 0x7f) | 0x80) as u8))
            by (bit_vector);
        assert(out@ =~= old(out)@ + per_length(n));
    }
}

/// Writes a 16-bit integer as two big-endian bytes.
pub fn write_integer_16(v: u16, out: &mut Vec<u8>)
    ensures
        final(out)@ == old(out)@ + per_integer_16(v),
{
    out.push(((v >> 8) & 0xff) as u8);
    out.push((v & 0xff) as u8);
    assert(out@ =~= old(out)@ + per_integer_16(v));
}

/// Writes a numeric string: a length prefix over the minimum, then digits
/// packed two to a byte, padded to an even nibble count.
pub fn write_numeric_string(s: &[u8], minimum: usize, out: &mut Vec<u8>)
    requires
        s@.len() <= 0x7fff,
        minimum <= 0x7fff,
        forall|i: int| 0 <= i < s@.len() ==> 0x30 <= #[trigger] s@[i] <= 0x39,
    ensures
        final(out)@ == old(out)@ + per_numeric_string(s@, minimum as int),
{
    let n: usize = s.len();
    let prefix: u16 = if n >= minimum {
        (n - minimum) as u16
    } else {
        0
    };
    write_length(prefix, out);
    let half: usize = (n + 1) / 2;
    let mut k: usize = 0;
    while k < half
        invariant
            k <= half,
            half == (n + 1) / 2,
            n == s@.len(),
            forall|i: int| 0 <= i < s@.len() ==> 0x30 <= #[trigger] s@[i] <= 0x39,
            out@ == old(out)@ + per_length(
                if s@.len() >= minimum {
                    (s@.len() - minimum) as u16
                } else {
                    0u16
                },
            ) + per_numeric_payload(s@).take(k as int),
        decreases half - k,
    {
        assert(2 * k < n);
        let c1: u8 = s[2 * k] - 0x30;
        let c2: u8 = if 2 * k + 1 < n {
            s[2 * k + 1] - 0x30
        } else {
            0
        };
        out.push(c1 * 16 + c2);
        assert(out@ =~= old(out)@ + per_length(
            if s@.len() >= minimum {
                (s@.len() - minimum) as u16
            } else {
                0u16
            },
        ) + per_numeric_payload(s@).take(k + 1 as int));
        k = k + 1;
    }
    assert(per_numeric_payload(s@).take(half as int) =~= per_numeric_payload(s@));
    assert(out@ =~= old(out)@ + per_numeric_string(s@, minimum as int));
}

/// Writes an octet stream: a length prefix over the minimum, then the bytes.
pub fn write_octet_stream(b: &[u8], minimum: usize, out: &mut Vec<u8>)
    requires
        b@.len() <= 0x7fff,
        minimum <= 0x7fff,
    ensures
        final(out)@ == old(out)@ + per_octet_stream(b@, minimum as int),
{
    let n: usize = b.len();
    let prefix: u16 = if n >= minimum {
        (n - minimum) as u16
    } else {
        0
    };
    write_length(prefix, out);
    out.extend_from_slice(b);
    assert(out@ =~= old(out)@ + per_octet_stream(b@, minimum as int));
}

/// Writes a six-component object identifier in its fixed PER form.
pub fn write_object_identifier(oid: &[u8], out: &mut Vec<u8>)
    requires
        oid@.len() == 6,
        oid@[0] * 40 + oid@[1] <= 0xff,
    ensures
        final(out)@ == old(out)@ + per_object_identifier(oid@),
{
    out.push(5);
    out.push(oid[0] * 40 + oid[1]);
    out.push(oid[2]);
    out.push(oid[3]);
    out.push(oid[4]);
    out.push(oid[5]);
    assert(out@ =~= old(out)@ + per_object_identifier(oid@));
}

// ---------------------------------------------------------------------------
// Readers: the inverse forms, over a byte slice and a cursor position.
// ---------------------------------------------------------------------------

/// Reads one byte, as choices, selections, enumerated values and set counts
/// are encoded.
pub fn read_u8(input: &[u8], pos: usize) -> (r: RdpResult<(u8, usize)>)
    ensures
        r matches Result::Ok(t) ==> pos < input@.len() && t.0 == input@[pos as int] && t.1 == pos
            + 1,
        r matches Result::Err(e) ==> pos >= input@.len() && e.kind == RdpErrorKind::InvalidSize,
{
    if pos < input.len() {
        Result::Ok((input[pos], pos + 1))
    } else {
        Result::Err(RdpError::new(RdpErrorKind::InvalidSize))
    }
}

/// Reads a one-byte choice.
pub fn read_choice(input: &[u8], pos: usize) -> (r: RdpResult<(u8, usize)>)
    ensures
        r matches Result::Ok(t) ==> pos < input@.len() && t.0 == input@[pos as int] && t.1 == pos
            + 1,
        r matches Result::Err(e) ==> pos >= input@.len() && e.kind == RdpErrorKind::InvalidSize,
{
    read_u8(input, pos)
}

/// Reads a one-byte enumerated value.
pub fn read_enumerates(input: &[u8], pos: usize) -> (r: RdpResult<(u8, usize)>)
    ensures
        r matches Result::Ok(t) ==> pos < input@.len() && t.0 == input@[pos as int] && t.1 == pos
            + 1,
        r matches Result::Err(e) ==> pos >= input@.len() && e.kind == RdpErrorKind::InvalidSize,
{
    read_u8(input, pos)
}

/// Reads a one-byte set count.
pub fn read_number_of_set(input: &[u8], pos: usize) -> (r: RdpResult<(u8, usize)>)
    ensures
        r matches Result::Ok(t) ==> pos < input@.len() && t.0 == input@[pos as int] && t.1 == pos
            + 1,
        r matches Result::Err(e) ==> pos >= input@.len() && e.kind == RdpErrorKind::InvalidSize,
{
    read_u8(input, pos)
}

/// What reading a PER length at `pos` gives.
pub open spec fn spec_read_length(input: Seq<u8>, pos: int) -> Result<(u16, int), RdpErrorKind> {
    if pos + 1 > input.len() {
        Result::Err(RdpErrorKind::InvalidSize)
    } else if input[pos] & 0x80 == 0 {
        Result::Ok((input[pos] as u16, pos + 1))
    } else if pos + 2 <= input.len() {
        Result::Ok(
            ((((input[pos] & 0x7f) as u16) << 8 | input[pos + 1] as u16) as u16, pos + 2),
        )
    } else {
        Result::Err(RdpErrorKind::InvalidSize)
    }
}

/// Reads a PER length.
pub fn read_length(input: &[u8], pos: usize) -> (r: RdpResult<(u16, usize)>)
    ensures
        r matches Result::Ok(t) ==> spec_read_length(input@, pos as int) == Result::<
            (u16, int),
            RdpErrorKind,
        >::Ok((t.0, t.1 as int)) && t.1 <= input@.len(),
        r matches Result::Err(e) ==> spec_read_length(input@, pos as int) == Result::<
            (u16, int),
            RdpErrorKind,
        >::Err(e.kind),
{
    if pos >= input.len() {
        return Result::Err(RdpError::new(RdpErrorKind::InvalidSize));
    }
    let b0: u8 = input[pos];
    if b0 & 0x80 == 0 {
        Result::Ok((b0 as u16, pos + 1))
    } else if pos + 1 < input.len() {
        let b1: u8 = input[pos + 1];
        Result::Ok((((b0 & 0x7f) as u16) << 8 | b1 as u16, pos + 2))
    } else {
        Result::Err(RdpError::new(RdpErrorKind::InvalidSize))
    }
}

/// Reading a written length gives the length back.
pub proof fn lemma_per_length_roundtrip(n: u16, prefix: Seq<u8>, rest: Seq<u8>)
    requires
        n <= 0x7fff,
    ensures
        spec_read_length(prefix + per_length(n) + rest, prefix.len() as int) == Result::<
            (u16, int),
            RdpErrorKind,
        >::Ok((n, prefix.len() as int + per_length(n).len() as int)),
{
    let input = prefix + per_length(n) + rest;
    let pos = prefix.len() as int;
    if n <= 0x7f {
        assert(input[pos] == n as u8);
        assert((n as u8) & 0x80 == 0 && (n as u8) as u16 == n) by (bit_vector)
            requires
                n <= 0x7f,
        ;
    } else {
        assert(input[pos] == (((n >> 8) & 0x7f) | 0x80) as u8);
        assert(input[pos + 1] == (n & 0xff) as u8);
        assert(((((n >> 8) & 0x7f) | 0x80) as u8) & 0x80 != 0) by (bit_vector);
        assert((((((((n >> 8) & 0x7f) | 0x80) as u8) & 0x7f) as u16) << 8 | ((n
            & 0xff) as u8) as u16) == n) by (bit_vector)
            requires
                0x7f < n <= 0x7fff,
        ;
    }
}

/// Reads a 16-bit big-endian integer and checks it against an expected
/// value; `InvalidConst` on a mismatch.
pub fn read_integer_16(expected: u16, input: &[u8], pos: usize) -> (r: RdpResult<usize>)
    ensures
        r matches Result::Ok(p) ==> pos + 2 <= input@.len() && p == pos + 2
            && crate::data::u16_from_be(input@[pos as int], input@[pos as int + 1]) == expected,
        r matches Result::Err(e) ==> (e.kind == RdpErrorKind::InvalidSize && pos + 2
            > input@.len()) || (e.kind == RdpErrorKind::InvalidConst && pos + 2 <= input@.len()
            && crate::data::u16_from_be(input@[pos as int], input@[pos as int + 1]) != expected),
{
    if input.len() < 2 || pos > input.len() - 2 {
        return Result::Err(RdpError::new(RdpErrorKind::InvalidSize));
    }
    let v: u16 = ((input[pos] as u16) << 8) | input[pos + 1] as u16;
    if v == expected {
        Result::Ok(pos + 2)
    } else {
        Result::Err(RdpError::new(RdpErrorKind::InvalidConst))
    }
}

/// What reading a PER integer at `pos` gives: a length prefix of 1, 2 or
/// 4, then that many big-endian bytes.
pub open spec fn spec_read_integer(input: Seq<u8>, pos: int) -> Result<(u32, int), RdpErrorKind> {
    match spec_read_length(input, pos) {
        Result::Err(e) => Result::Err(e),
        Result::Ok((n, p)) => if n == 1 {
            if p + 1 <= input.len() {
                Result::Ok((input[p] as u32, p + 1))
            } else {
                Result::Err(RdpErrorKind::InvalidSize)
            }
        } else if n == 2 {
            if p + 2 <= input.len() {
                Result::Ok((crate::data::u16_from_be(input[p], input[p + 1]) as u32, p + 2))
            } else {
                Result::Err(RdpErrorKind::InvalidSize)
            }
        } else if n == 4 {
            if p + 4 <= input.len() {
                Result::Ok(
                    (
                        crate::data::u32_from_be(
                            input[p],
                            input[p + 1],
                            input[p + 2],
                            input[p + 3],
                        ),
                        p + 4,
                    ),
                )
            } else {
                Result::Err(RdpErrorKind::InvalidSize)
            }
        } else {
            Result::Err(RdpErrorKind::InvalidSize)
        },
    }
}

/// Reads a PER integer: a length prefix of 1, 2 or 4, then that many
/// big-endian bytes.
pub fn read_integer(input: &[u8], pos: usize) -> (r: RdpResult<(u32, usize)>)
    ensures
        r matches Result::Ok(t) ==> spec_read_integer(input@, pos as int) == Result::<
            (u32, int),
            RdpErrorKind,
        >::Ok((t.0, t.1 as int)) && t.1 <= input@.len(),
        r matches Result::Err(e) ==> spec_read_integer(input@, pos as int) == Result::<
            (u32, int),
            RdpErrorKind,
        >::Err(e.kind),
{
    let (n, p) = match read_length(input, pos) {
        Result::Ok(t) => t,
        Result::Err(e) => {
            return Result::Err(e);
        },
    };
    if n == 1 {
        if p < input.len() {
            Result::Ok((input[p] as u32, p + 1))
        } else {
            Result::Err(RdpError::new(RdpErrorKind::InvalidSize))
        }
    } else if n == 2 {
        if input.len() >= 2 && p <= input.len() - 2 {
            Result::Ok(((((input[p] as u16) << 8) | input[p + 1] as u16) as u32, p + 2))
        } else {
            Result::Err(RdpError::new(RdpErrorKind::InvalidSize))
        }
    } else if n == 4 {
        if input.len() >= 4 && p <= input.len() - 4 {
            let v: u32 = ((input[p] as u32) << 24) | ((input[p + 1] as u32) << 16) | ((input[p
                + 2] as u32) << 8) | input[p + 3] as u32;
            Result::Ok((v, p + 4))
        } else {
            Result::Err(RdpError::new(RdpErrorKind::InvalidSize))
        }
    } else {
        Result::Err(RdpError::new(RdpErrorKind::InvalidSize))
    }
}

/// Skips `n` padding bytes.
pub fn read_padding(n: usize, input: &[u8], pos: usize) -> (r: RdpResult<usize>)
    ensures
        r matches Result::Ok(p) ==> p == pos + n && p <= input@.len(),
        r matches Result::Err(e) ==> e.kind == RdpErrorKind::InvalidSize && pos + n
            > input@.len(),
{
    if n <= input.len() && pos <= input.len() - n {
        Result::Ok(pos + n)
    } else {
        Result::Err(RdpError::new(RdpErrorKind::InvalidSize))
    }
}

/// What reading an octet stream checked against an expected one gives: a
/// length prefix, then the expected bytes; `InvalidSize` where they do not
/// fit, `InvalidConst` where they differ.
pub open spec fn spec_read_octet_stream(expected: Seq<u8>, input: Seq<u8>, pos: int) -> Result<
    int,
    RdpErrorKind,
> {
    match spec_read_length(input, pos) {
        Result::Err(e) => Result::Err(e),
        Result::Ok((l, q)) => if q + expected.len() > input.len() {
            Result::Err(RdpErrorKind::InvalidSize)
        } else if input.subrange(q, q + expected.len()) != expected {
            Result::Err(RdpErrorKind::InvalidConst)
        } else {
            Result::Ok(q + expected.len())
        },
    }
}

/// Reads an octet stream and checks it against an expected one, as the
/// H.221 keys are checked; `InvalidConst` where the bytes differ.
pub fn read_octet_stream(expected: &[u8], minimum: usize, input: &[u8], pos: usize) -> (r:
    RdpResult<usize>)
    ensures
        r matches Result::Ok(p) ==> spec_read_octet_stream(expected@, input@, pos as int)
            == Result::<int, RdpErrorKind>::Ok(p as int) && p <= input@.len()
            && input@.subrange(p - expected@.len(), p as int) == expected@,
        r matches Result::Err(e) ==> spec_read_octet_stream(expected@, input@, pos as int)
            == Result::<int, RdpErrorKind>::Err(e.kind),
{
    let (l0, mut p) = match read_length(input, pos) {
        Result::Ok(t) => t,
        Result::Err(e) => {
            return Result::Err(e);
        },
    };
    let n: usize = expected.len();
    if n > input.len() || p > input.len() - n {
        return Result::Err(RdpError::new(RdpErrorKind::InvalidSize));
    }
    let start: usize = p;
    let mut k: usize = 0;
    while k < n
        invariant
            k <= n,
            n == expected@.len(),
            start + n <= input@.len(),
            p == start + k,
            spec_read_length(input@, pos as int) == Result::<(u16, int), RdpErrorKind>::Ok(
                (l0, start as int),
            ),
            input@.subrange(start as int, p as int) == expected@.take(k as int),
        decreases n - k,
    {
        if input[p] != expected[k] {
            proof {
                assert(input@.subrange(start as int, start + n as int)[k as int] != expected@[
                    k as int
                ]);
            }
            return Result::Err(RdpError::new(RdpErrorKind::InvalidConst));
        }
        p = p + 1;
        k = k + 1;
        assert(input@.subrange(start as int, p as int) =~= expected@.take(k as int));
    }
    assert(expected@.take(n as int) =~= expected@);
    Result::Ok(p)
}

/// What reading the fixed object-identifier encoding gives: `InvalidSize`
/// where it does not fit or its length byte is wrong, `InvalidConst` where
/// the identifier differs.
pub open spec fn spec_read_object_identifier(oid: Seq<u8>, input: Seq<u8>, pos: int) -> Result<
    int,
    RdpErrorKind,
> {
    if pos + 6 > input.len() {
        Result::Err(RdpErrorKind::InvalidSize)
    } else if input[pos] != 5 {
        Result::Err(RdpErrorKind::InvalidSize)
    } else if input.subrange(pos, pos + 6) != per_object_identifier(oid) {
        Result::Err(RdpErrorKind::InvalidConst)
    } else {
        Result::Ok(pos + 6)
    }
}

/// Reads and checks the fixed object-identifier encoding; `InvalidSize` on
/// a bad length, `InvalidConst` on a different identifier.
pub fn read_object_identifier(oid: &[u8], input: &[u8], pos: usize) -> (r: RdpResult<usize>)
    requires
        oid@.len() == 6,
        oid@[0] * 40 + oid@[1] <= 0xff,
    ensures
        r matches Result::Ok(p) ==> spec_read_object_identifier(oid@, input@, pos as int)
            == Result::<int, RdpErrorKind>::Ok(p as int) && p == pos + 6 && p <= input@.len()
            && input@.subrange(pos as int, p as int) == per_object_identifier(oid@),
        r matches Result::Err(e) ==> spec_read_object_identifier(oid@, input@, pos as int)
            == Result::<int, RdpErrorKind>::Err(e.kind),
{
    if input.len() < 6 || pos > input.len() - 6 {
        return Result::Err(RdpError::new(RdpErrorKind::InvalidSize));
    }
    if input[pos] != 5 {
        return Result::Err(RdpError::new(RdpErrorKind::InvalidSize));
    }
    if input[pos + 1] == oid[0] * 40 + oid[1] && input[pos + 2] == oid[2] && input[pos + 3]
        == oid[3] && input[pos + 4] == oid[4] && input[pos + 5] == oid[5] {
        assert(input@.subrange(pos as int, pos + 6 as int) =~= per_object_identifier(oid@));
        Result::Ok(pos + 6)
    } else {
        Result::Err(RdpError::new(RdpErrorKind::InvalidConst))
    }
}

} // verus!
