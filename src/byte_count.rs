//! Byte-size literals such as `1 KiB` (1024) or `1 kB` (1000), narrowed to
//! the width of the integer they initialise.

use vstd::prelude::*;
use vstd::arithmetic::power2::{lemma2_to64, lemma_pow2_strictly_increases, lemma_pow2_unfold, pow2};
use crate::error::{matches_outcome, ErrorKind, LitError};

verus! {

/// What bytesize's parser gives for a text: a count of bytes, or its error
/// message.
pub uninterp spec fn bytesize_value(s: Seq<char>) -> Result<u64, Seq<char>>;

/// Relies on `<bytesize::ByteSize as FromStr>::from_str`, read through
/// `ByteSize::as_u64`; each of its error messages is formatted from a
/// non-empty template.
#[verifier::external_body]
fn parse_byte_size(s: &str) -> (r: Result<u64, String>)
    ensures
        match r {
            Ok(v) => bytesize_value(s@) == Ok::<u64, Seq<char>>(v),
            Err(m) => bytesize_value(s@) == Err::<u64, Seq<char>>(m@) && m@.len() > 0,
        },
{
    match s.parse::<bytesize::ByteSize>() {
        Ok(b) => Ok(b.as_u64()),
        Err(m) => Err(m),
    }
}

/// Whether `value` is representable as an unsigned integer of `bits` bits.
pub open spec fn fits_width(value: u64, bits: u32) -> bool {
    bits >= 64 || (value as nat) < pow2(bits as nat)
}

/// Decides `fits_width`.
pub fn fits_in_bits(value: u64, bits: u32) -> (r: bool)
    ensures
        r == fits_width(value, bits),
{
    if bits >= 64 {
        return true;
    }
    proof {
        lemma2_to64();
    }
    let mut limit: u128 = 1;
    let mut i: u32 = 0;
    while i < bits
        invariant
            i <= bits < 64,
            limit == pow2(i as nat),
            pow2(64) == 0x1_0000_0000_0000_0000,
        decreases bits - i,
    {
        proof {
            lemma_pow2_unfold((i + 1) as nat);
            lemma_pow2_strictly_increases((i + 1) as nat, 64);
        }
        limit = limit * 2;
        i = i + 1;
    }
    (value as u128) < limit
}

/// How many bits an unsigned integer needs to hold `v`.
pub open spec fn bit_length(v: nat) -> nat
    decreases v,
{
    if v == 0 {
        0
    } else {
        1 + bit_length(v / 2)
    }
}

/// Computes `bit_length`.
pub fn bits_needed(v: u64) -> (r: u32)
    ensures
        r == bit_length(v as nat),
{
    proof {
        lemma2_to64();
    }
    let mut x: u64 = v;
    let mut n: u32 = 0;
    while x > 0
        invariant
            n <= 64,
            n + bit_length(x as nat) == bit_length(v as nat),
            x * pow2(n as nat) <= u64::MAX,
            pow2(64) == 0x1_0000_0000_0000_0000,
        decreases x,
    {
        proof {
            if n >= 64 {
                assert(n == 64);
                assert(x * pow2(n as nat) >= pow2(n as nat)) by (nonlinear_arith)
                    requires
                        x >= 1,
                ;
            }
            lemma_pow2_unfold((n + 1) as nat);
            let p = pow2(n as nat);
            assert((x / 2) * (2 * p) <= x * p) by (nonlinear_arith);
        }
        x = x / 2;
        n = n + 1;
    }
    n
}

/// What converting the byte-size text `text` for an integer of `bits` bits
/// gives: the count, or the error's kind and cause.
pub open spec fn byte_count_result(text: Seq<char>, bits: u32) -> Result<u64, (ErrorKind, Seq<char>)> {
    match bytesize_value(text) {
        Err(m) => Err((ErrorKind::ByteSizeParse, m)),
        Ok(v) => if fits_width(v, bits) {
            Ok(v)
        } else {
            Err(
                (
                    ErrorKind::ByteSizeOverflow { value: v, bits, needed: bit_length(v as nat) as u32 },
                    Seq::empty(),
                ),
            )
        },
    }
}

/// Converts a byte-size text to a count of bytes that fits `bits` bits.
pub fn convert_byte_count(text: &str, bits: u32) -> (r: Result<u64, LitError>)
    ensures
        matches_outcome(r, byte_count_result(text@, bits), text@),
        bytesize_value(text@) matches Err(m) ==> m.len() > 0,
{
    match parse_byte_size(text) {
        Ok(v) => {
            if fits_in_bits(v, bits) {
                Ok(v)
            } else {
                let needed = bits_needed(v);
                Err(LitError::conversion(ErrorKind::ByteSizeOverflow { value: v, bits, needed }, text, String::new()))
            }
        },
        Err(m) => Err(LitError::conversion(ErrorKind::ByteSizeParse, text, m)),
    }
}

} // verus!
