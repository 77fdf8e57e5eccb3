//! Content addressing: every capture is identified by the lowercase
//! hexadecimal rendering of its 64-bit XXH3 digest.

use vstd::prelude::*;

use crate::numfmt::{hex_u64, spec_hex_digits};

verus! {

/// The 64-bit XXH3 digest of a byte sequence; a fixed function of the bytes
/// alone, computed by the `twox_hash` crate.
pub uninterp spec fn xxh64_of_bytes(data: Seq<u8>) -> u64;

/// The 64-bit XXH3 digest of a string's UTF-8 bytes; a fixed function of the
/// characters alone, computed by the `twox_hash` crate.
pub uninterp spec fn xxh64_of_str(s: Seq<char>) -> u64;

/// Relies on `twox_hash::xxh3::hash64`: the digest depends on the input
/// bytes alone.
#[verifier::external_body]
fn xxh3_bytes(data: &[u8]) -> (r: u64)
    ensures
        r == xxh64_of_bytes(data@),
{
    twox_hash::xxh3::hash64(data)
}

/// Relies on `twox_hash::xxh3::hash64` applied to the string's UTF-8 bytes:
/// the digest depends on the characters alone.
#[verifier::external_body]
fn xxh3_str(s: &str) -> (r: u64)
    ensures
        r == xxh64_of_str(s@),
{
    twox_hash::xxh3::hash64(s.as_bytes())
}

/// The content address of a string: lowercase hex of its XXH3 digest.
pub open spec fn spec_hash_str(s: Seq<char>) -> Seq<char> {
    spec_hex_digits(xxh64_of_str(s) as nat)
}

/// The content address of raw bytes: lowercase hex of their XXH3 digest.
pub open spec fn spec_hash_vec(data: Seq<u8>) -> Seq<char> {
    spec_hex_digits(xxh64_of_bytes(data) as nat)
}

/// Content address of a string.
pub fn hash_str(input: &str) -> (r: String)
    ensures
        r@ == spec_hash_str(input@),
{
    hex_u64(xxh3_str(input))
}

/// Content address of a byte slice.
pub fn hash_vec(input: &[u8]) -> (r: String)
    ensures
        r@ == spec_hash_vec(input@),
{
    hex_u64(xxh3_bytes(input))
}

} // verus!
