//! ASCII renderings of integers: decimal for payload lengths and
//! timestamps, octal for file modes, zero-padded two-digit fields for
//! timezone offsets.

use vstd::prelude::*;

verus! {

/// Decimal ASCII digits of `n`, most significant first, no sign, no
/// leading zeros (`0` itself is the single digit `0`).
pub open spec fn dec_rep(n: nat) -> Seq<u8>
    decreases n,
{
    if n < 10 {
        seq![(48 + n) as u8]
    } else {
        dec_rep(n / 10).push((48 + n % 10) as u8)
    }
}

/// Decimal ASCII of a possibly negative integer: a leading `-` for a
/// negative value, then the digits of its magnitude.
pub open spec fn signed_dec_rep(n: int) -> Seq<u8> {
    if n < 0 {
        seq![45u8] + dec_rep((-n) as nat)
    } else {
        dec_rep(n as nat)
    }
}

/// Octal ASCII digits of `n`, most significant first, no leading zeros.
pub open spec fn oct_rep(n: nat) -> Seq<u8>
    decreases n,
{
    if n < 8 {
        seq![(48 + n) as u8]
    } else {
        oct_rep(n / 8).push((48 + n % 8) as u8)
    }
}

/// Exactly two decimal digits, for a value in `0..100`.
pub open spec fn two_digit_rep(n: nat) -> Seq<u8> {
    seq![(48 + n / 10) as u8, (48 + n % 10) as u8]
}

/// Decimal ASCII of an unsigned integer.
pub fn u64_to_dec(n: u64) -> (r: Vec<u8>)
    ensures
        r@ == dec_rep(n as nat),
    decreases n,
{
    if n < 10 {
        let mut out: Vec<u8> = Vec::new();
        out.push(48 + n as u8);
        out
    } else {
        let mut out = u64_to_dec(n / 10);
        out.push(48 + (n % 10) as u8);
        out
    }
}

/// Decimal ASCII of a signed integer, `-` prefixed when negative.
pub fn i64_to_dec(n: i64) -> (r: Vec<u8>)
    ensures
        r@ == signed_dec_rep(n as int),
{
    if n >= 0 {
        u64_to_dec(n as u64)
    } else {
        // `-n` overflows on i64::MIN, so move toward zero before negating.
        let magnitude: u64 = (-(n + 1)) as u64 + 1;
        assert(magnitude == -(n as int));
        let mut out: Vec<u8> = Vec::new();
        out.push(45);
        let mut digits = u64_to_dec(magnitude);
        let mut j: usize = 0;
        while j < digits.len()
            invariant
                j <= digits@.len(),
                out@ =~= seq![45u8] + digits@.subrange(0, j as int),
            decreases digits@.len() - j,
        {
            out.push(digits[j]);
            proof {
                assert(out@ =~= seq![45u8] + digits@.subrange(0, j + 1));
            }
            j = j + 1;
        }
        proof {
            assert(digits@.subrange(0, digits@.len() as int) =~= digits@);
        }
        out
    }
}

/// Octal ASCII of an unsigned integer.
pub fn u32_to_oct(n: u32) -> (r: Vec<u8>)
    ensures
        r@ == oct_rep(n as nat),
    decreases n,
{
    if n < 8 {
        let mut out: Vec<u8> = Vec::new();
        out.push(48 + n as u8);
        out
    } else {
        let mut out = u32_to_oct(n / 8);
        out.push(48 + (n % 8) as u8);
        out
    }
}

/// Law: every byte of a decimal rendering is an ASCII digit, and the
/// rendering is never empty.
pub proof fn lemma_dec_rep_digits(n: nat)
    ensures
        dec_rep(n).len() >= 1,
        forall|i: int| 0 <= i < dec_rep(n).len() ==> 48 <= #[trigger] dec_rep(n)[i] <= 57,
    decreases n,
{
    if n >= 10 {
        lemma_dec_rep_digits(n / 10);
        assert forall|i: int| 0 <= i < dec_rep(n).len() implies 48 <= #[trigger] dec_rep(n)[i]
            <= 57 by {
            if i < dec_rep(n / 10).len() {
                assert(dec_rep(n)[i] == dec_rep(n / 10)[i]);
            }
        }
    }
}

} // verus!
