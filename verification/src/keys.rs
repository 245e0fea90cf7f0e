//! Parsing an SR25519 public key from its hexadecimal command-line form.

use vstd::prelude::*;
use vstd::string::StringSliceAdditionalSpecFns;
use crate::tx::PUBKEY_LEN;

verus! {

/// Value of one hexadecimal digit, or -1 for any other byte.
pub open spec fn hex_digit_val(c: u8) -> int {
    if 0x30 <= c <= 0x39 {
        c - 0x30
    } else if 0x61 <= c <= 0x66 {
        c - 0x61 + 10
    } else if 0x41 <= c <= 0x46 {
        c - 0x41 + 10
    } else {
        -1
    }
}

pub open spec fn is_hex_digit(c: u8) -> bool {
    hex_digit_val(c) >= 0
}

/// A byte string decodes as hexadecimal when its length is even and
/// every byte is a digit.
pub open spec fn hex_ok(s: Seq<u8>) -> bool {
    s.len() % 2 == 0 && forall|i: int| 0 <= i < s.len() ==> is_hex_digit(#[trigger] s[i])
}

/// The bytes a hexadecimal string denotes, two digits each.
pub open spec fn hex_bytes(s: Seq<u8>) -> Seq<u8>
    decreases s.len(),
{
    if s.len() < 2 {
        Seq::empty()
    } else {
        hex_bytes(s.drop_last().drop_last()).push(
            (hex_digit_val(s[s.len() - 2]) * 16 + hex_digit_val(s[s.len() - 1])) as u8,
        )
    }
}

/// Why a key string was refused.
#[derive(Clone, Copy, PartialEq, Eq, Structural, Debug)]
pub enum KeyParseError {
    /// The string is not well-formed hexadecimal.
    InvalidHex,
    /// The string decodes, but not to exactly 32 bytes.
    WrongLength,
}

/// Value of one hexadecimal digit byte, if it is one.
fn hex_digit(c: u8) -> (r: Option<u8>)
    ensures
        match r {
            Some(v) => hex_digit_val(c) == v && v < 16,
            None => !is_hex_digit(c),
        },
{
    if 0x30 <= c && c <= 0x39 {
        Some(c - 0x30)
    } else if 0x61 <= c && c <= 0x66 {
        Some(c - 0x61 + 10)
    } else if 0x41 <= c && c <= 0x46 {
        Some(c - 0x41 + 10)
    } else {
        None
    }
}

/// Decode a hexadecimal byte string.
#[verifier::loop_isolation(false)]
pub fn hex_decode(s: &[u8]) -> (r: Result<Vec<u8>, KeyParseError>)
    ensures
        match r {
            Ok(v) => hex_ok(s@) && v@ == hex_bytes(s@),
            Err(e) => e == KeyParseError::InvalidHex && !hex_ok(s@),
        },
{
    let n = s.len();
    if n % 2 != 0 {
        return Err(KeyParseError::InvalidHex);
    }
    let mut out: Vec<u8> = Vec::new();
    let mut i: usize = 0;
    proof {
        assert(hex_bytes(s@.subrange(0, 0)) =~= Seq::<u8>::empty());
    }
    while i < n
        invariant
            i <= n,
            i % 2 == 0,
            out@ == hex_bytes(s@.subrange(0, i as int)),
            forall|j: int| 0 <= j < i ==> is_hex_digit(#[trigger] s@[j]),
        decreases n - i,
    {
        let hi = match hex_digit(s[i]) {
            Some(v) => v,
            None => {
                return Err(KeyParseError::InvalidHex);
            },
        };
        let lo = match hex_digit(s[i + 1]) {
            Some(v) => v,
            None => {
                return Err(KeyParseError::InvalidHex);
            },
        };
        out.push(hi * 16 + lo);
        proof {
            let p = s@.subrange(0, i + 2);
            assert(p.drop_last().drop_last() =~= s@.subrange(0, i as int));
            assert(p[p.len() - 2] == s@[i as int]);
            assert(p[p.len() - 1] == s@[i + 1]);
            assert(out@ =~= hex_bytes(p));
        }
        i = i + 2;
    }
    proof {
        assert(s@.subrange(0, n as int) =~= s@);
    }
    Ok(out)
}

/// Parse a miner's SR25519 public key from its hexadecimal text form:
/// the string must be well-formed hexadecimal denoting exactly 32 bytes.
pub fn parse_sr25519_public_key(s: &str) -> (r: Result<Vec<u8>, KeyParseError>)
    ensures
        match r {
            Ok(v) => {
                &&& hex_ok(s.spec_bytes())
                &&& v@ == hex_bytes(s.spec_bytes())
                &&& v@.len() == PUBKEY_LEN
            },
            Err(KeyParseError::InvalidHex) => !hex_ok(s.spec_bytes()),
            Err(KeyParseError::WrongLength) => hex_ok(s.spec_bytes()) && hex_bytes(
                s.spec_bytes(),
            ).len() != PUBKEY_LEN,
        },
{
    let bytes = s.as_bytes();
    let decoded = match hex_decode(bytes) {
        Ok(v) => v,
        Err(e) => {
            return Err(e);
        },
    };
    if decoded.len() != PUBKEY_LEN {
        return Err(KeyParseError::WrongLength);
    }
    Ok(decoded)
}

} // verus!
