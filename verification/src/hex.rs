use vstd::prelude::*;

use crate::error::{RdpError, RdpErrorKind, RdpResult};

verus! {

// ---------------------------------------------------------------------------
// Hex decoding, as the NTLM hash option is taken in: a payload that is not
// well-formed hex is semantically wrong and fails with `InvalidData`.
// ---------------------------------------------------------------------------

/// The value of one hex digit, where the character is one.
pub open spec fn hex_digit(c: char) -> Option<u8> {
    let u = c as u32;
    if 0x30 <= u <= 0x39 {
        Option::Some((u - 0x30) as u8)
    } else if 0x61 <= u <= 0x66 {
        Option::Some((u - 0x61 + 10) as u8)
    } else if 0x41 <= u <= 0x46 {
        Option::Some((u - 0x41 + 10) as u8)
    } else {
        Option::None
    }
}

/// A well-formed hex string: an even count of hex digits.
pub open spec fn valid_hex(s: Seq<char>) -> bool {
    s.len() % 2 == 0 && forall|i: int| 0 <= i < s.len() ==> hex_digit(#[trigger] s[i]) is Some
}

/// The bytes a well-formed hex string denotes.
pub open spec fn hex_bytes(s: Seq<char>) -> Seq<u8> {
    Seq::new(
        (s.len() / 2) as nat,
        |i: int| (hex_digit(s[2 * i]).unwrap() * 16 + hex_digit(s[2 * i + 1]).unwrap()) as u8,
    )
}

fn hex_digit_exec(c: char) -> (r: Option<u8>)
    ensures
        r == hex_digit(c),
{
    let u = c as u32;
    if 0x30 <= u && u <= 0x39 {
        Option::Some((u - 0x30) as u8)
    } else if 0x61 <= u && u <= 0x66 {
        Option::Some((u - 0x61 + 10) as u8)
    } else if 0x41 <= u && u <= 0x46 {
        Option::Some((u - 0x41 + 10) as u8)
    } else {
        Option::None
    }
}

/// Decodes a hex string into its bytes: `Ok` exactly on an even count of
/// hex digits, `InvalidData` on anything else.
pub fn decode_hex(s: &Vec<char>) -> (r: RdpResult<Vec<u8>>)
    ensures
        r matches Result::Ok(b) ==> valid_hex(s@) && b@ == hex_bytes(s@),
        r matches Result::Err(e) ==> !valid_hex(s@) && e.kind == RdpErrorKind::InvalidData,
{
    let n: usize = s.len();
    if n % 2 != 0 {
        return Result::Err(RdpError::new(RdpErrorKind::InvalidData));
    }
    let half: usize = n / 2;
    let mut out: Vec<u8> = Vec::new();
    let mut k: usize = 0;
    while k < half
        invariant
            k <= half,
            half == s@.len() / 2,
            n == s@.len(),
            n % 2 == 0,
            out@.len() == k,
            forall|i: int| 0 <= i < 2 * k ==> hex_digit(#[trigger] s@[i]) is Some,
            forall|i: int| 0 <= i < k ==> out@[i] == hex_bytes(s@)[i],
        decreases half - k,
    {
        let hi = match hex_digit_exec(s[2 * k]) {
            Option::Some(v) => v,
            Option::None => {
                return Result::Err(RdpError::new(RdpErrorKind::InvalidData));
            },
        };
        let lo = match hex_digit_exec(s[2 * k + 1]) {
            Option::Some(v) => v,
            Option::None => {
                return Result::Err(RdpError::new(RdpErrorKind::InvalidData));
            },
        };
        out.push(hi * 16 + lo);
        proof {
            assert forall|i: int| 0 <= i < 2 * (k + 1) implies hex_digit(#[trigger] s@[i])
                is Some by {
                if i < 2 * k {
                } else {
                    assert(i == 2 * k || i == 2 * k + 1);
                }
            }
        }
        k = k + 1;
    }
    proof {
        assert(valid_hex(s@)) by {
            assert(forall|i: int| 0 <= i < s@.len() ==> i < 2 * half && hex_digit(
                #[trigger] s@[i],
            ) is Some);
        }
        assert(out@ =~= hex_bytes(s@));
    }
    Result::Ok(out)
}

} // verus!
