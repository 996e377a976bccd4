//! Hexadecimal digest codec: a digest travels as ASCII hex text but is
//! stored inside tree objects in its raw binary form.

use vstd::prelude::*;

verus! {

/// Why a hex string failed to decode.
#[derive(Debug, PartialEq, Eq, Clone, Copy)]
pub enum HexError {
    /// The input held an odd number of characters, so the last one has no pair.
    OddLength,
    /// A character was not an ASCII hex digit.
    InvalidDigit,
}

/// An ASCII byte that is a hexadecimal digit, either case.
pub open spec fn is_hex_digit(b: u8) -> bool {
    (48 <= b <= 57) || (97 <= b <= 102) || (65 <= b <= 70)
}

/// Numeric value of a hex digit (meaningful when `is_hex_digit(b)`).
pub open spec fn hex_val(b: u8) -> int {
    if 48 <= b <= 57 {
        b - 48
    } else if 97 <= b <= 102 {
        b - 87
    } else {
        b - 55
    }
}

/// Every byte of the sequence is a hex digit.
pub open spec fn all_hex_digits(s: Seq<u8>) -> bool {
    forall|i: int| 0 <= i < s.len() ==> is_hex_digit(#[trigger] s[i])
}

/// The bytes an even-length, all-hex sequence decodes to: each pair of
/// digits gives one byte, high digit first.
pub open spec fn hex_decoded(s: Seq<u8>) -> Seq<u8> {
    Seq::new(s.len() / 2, |i: int| (16 * hex_val(s[2 * i]) + hex_val(s[2 * i + 1])) as u8)
}

/// Lowercase hex digit for a value in `0..16`.
pub open spec fn hex_digit_char(v: int) -> u8 {
    if v < 10 {
        (48 + v) as u8
    } else {
        (87 + v) as u8
    }
}

/// The lowercase hex rendering of a byte sequence: two digits per byte,
/// high digit first.
pub open spec fn hex_encoded(b: Seq<u8>) -> Seq<u8> {
    Seq::new(b.len() * 2, |i: int| if i % 2 == 0 {
        hex_digit_char(b[i / 2] as int / 16)
    } else {
        hex_digit_char(b[i / 2] as int % 16)
    })
}

/// Value of one hex digit, or `None` when the byte is not a hex digit.
fn hex_digit_value(b: u8) -> (r: Option<u8>)
    ensures
        r is Some <==> is_hex_digit(b),
        r is Some ==> r->0 == hex_val(b),
{
    if 48 <= b && b <= 57 {
        Some(b - 48)
    } else if 97 <= b && b <= 102 {
        Some(b - 87)
    } else if 65 <= b && b <= 70 {
        Some(b - 55)
    } else {
        None
    }
}

/// Decodes a hex string to raw bytes, two digits to a byte.
///
/// Odd-length input is rejected with an explicit error rather than read past
/// its end; a non-digit character is rejected wherever it stands.
pub fn decode_hex(s: &[u8]) -> (r: Result<Vec<u8>, HexError>)
    ensures
        s@.len() % 2 != 0 ==> r == Err::<Vec<u8>, HexError>(HexError::OddLength),
        s@.len() % 2 == 0 && all_hex_digits(s@) ==> r is Ok && r->Ok_0@ == hex_decoded(s@),
        s@.len() % 2 == 0 && !all_hex_digits(s@) ==> r == Err::<Vec<u8>, HexError>(
            HexError::InvalidDigit,
        ),
{
    if s.len() % 2 != 0 {
        return Err(HexError::OddLength);
    }
    let mut out: Vec<u8> = Vec::new();
    let mut i: usize = 0;
    while i < s.len()
        invariant
            i % 2 == 0,
            i <= s@.len(),
            s@.len() % 2 == 0,
            out@ =~= hex_decoded(s@.subrange(0, i as int)),
            forall|j: int| 0 <= j < i ==> is_hex_digit(#[trigger] s@[j]),
        decreases s@.len() - i,
    {
        let hi = match hex_digit_value(s[i]) {
            Some(v) => v,
            None => {
                return Err(HexError::InvalidDigit);
            },
        };
        let lo = match hex_digit_value(s[i + 1]) {
            Some(v) => v,
            None => {
                return Err(HexError::InvalidDigit);
            },
        };
        out.push(16 * hi + lo);
        proof {
            assert(out@ =~= hex_decoded(s@.subrange(0, i + 2)));
        }
        i = i + 2;
    }
    proof {
        assert(s@.subrange(0, s@.len() as int) =~= s@);
    }
    Ok(out)
}

/// Encodes raw bytes as lowercase hex text, one byte to two digits.
pub fn encode_hex(bytes: &[u8]) -> (r: Vec<u8>)
    ensures
        r@ == hex_encoded(bytes@),
{
    let mut out: Vec<u8> = Vec::new();
    let mut i: usize = 0;
    while i < bytes.len()
        invariant
            i <= bytes@.len(),
            out@ =~= hex_encoded(bytes@.subrange(0, i as int)),
        decreases bytes@.len() - i,
    {
        let b = bytes[i];
        let hi = b / 16;
        let lo = b % 16;
        out.push(if hi < 10 {
            48 + hi
        } else {
            87 + hi
        });
        out.push(if lo < 10 {
            48 + lo
        } else {
            87 + lo
        });
        proof {
            assert(out@ =~= hex_encoded(bytes@.subrange(0, i + 1)));
        }
        i = i + 1;
    }
    proof {
        assert(bytes@.subrange(0, bytes@.len() as int) =~= bytes@);
    }
    out
}

/// Law: hex encoding loses nothing. The rendering of any byte sequence is
/// even-length, all hex digits, and decodes back to the original bytes.
pub proof fn lemma_hex_round_trip(b: Seq<u8>)
    ensures
        hex_encoded(b).len() == 2 * b.len(),
        hex_encoded(b).len() % 2 == 0,
        all_hex_digits(hex_encoded(b)),
        hex_decoded(hex_encoded(b)) == b,
{
    let e = hex_encoded(b);
    assert forall|i: int| 0 <= i < e.len() implies is_hex_digit(#[trigger] e[i]) by {
        assert(0 <= b[i / 2] < 256);
    }
    assert forall|i: int| 0 <= i < b.len() implies hex_decoded(e)[i] == b[i] by {
        assert(e[2 * i] == hex_digit_char(b[i] as int / 16));
        assert(e[2 * i + 1] == hex_digit_char(b[i] as int % 16));
        assert(hex_val(hex_digit_char(b[i] as int / 16)) == b[i] as int / 16);
        assert(hex_val(hex_digit_char(b[i] as int % 16)) == b[i] as int % 16);
        assert(16 * (b[i] as int / 16) + (b[i] as int % 16) == b[i] as int) by {
            vstd::arithmetic::div_mod::lemma_fundamental_div_mod(b[i] as int, 16);
        }
    }
    assert(hex_decoded(e) =~= b);
}

} // verus!
