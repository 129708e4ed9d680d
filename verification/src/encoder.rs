//! Field encoder: deterministic mapping from attribute text to field
//! elements.
//!
//! A string is hashed with SHA-256 and the first 31 digest bytes are read
//! as a little-endian integer. Thirty-one bytes are strictly fewer bits than the
//! 254-bit modulus, so the result is below the modulus by construction
//! and no modular reduction (with its bias) is ever applied.

use vstd::prelude::*;
use crate::field::{FieldElement, le_int, pow256};
use vstd::utf8::encode_utf8;

verus! {

/// The SHA-256 digest of a byte string.
pub uninterp spec fn sha256_of(data: Seq<u8>) -> Seq<u8>;

/// Relies on sha2::Sha256 through sha2::Digest::digest: the digest is a
/// pure function of the input bytes and is always 32 bytes long.
#[verifier::external_body]
fn sha256(data: &[u8]) -> (r: Vec<u8>)
    ensures
        r@ == sha256_of(data@),
        r@.len() == 32,
{
    let digest = <sha2::Sha256 as sha2::Digest>::digest(data);
    digest.to_vec()
}

/// What the encoder maps a byte string to: the first 31 bytes of its
/// SHA-256 digest, read as a little-endian integer.
pub open spec fn field_encode(data: Seq<u8>) -> int {
    le_int(sha256_of(data).take(31))
}

/// Encode raw bytes as a field element.
pub fn encode_bytes(data: &[u8]) -> (r: FieldElement)
    ensures
        r.wf(),
        r.value() == field_encode(data@),
        r.value() < pow256(31),
{
    let digest = sha256(data);
    FieldElement::from_le_prefix_31(&digest)
}

/// Encode a string as a field element. Equal strings always yield the
/// same element; the encoding inherits SHA-256's collision resistance.
pub fn hash_to_field(input: &str) -> (r: FieldElement)
    ensures
        r.wf(),
        r.value() == field_encode(encode_utf8(input@)),
        r.value() < pow256(31),
{
    let bytes = input.as_bytes();
    encode_bytes(bytes)
}

/// What str::to_lowercase returns, as a function of the characters alone.
pub uninterp spec fn lower_of(s: Seq<char>) -> Seq<char>;

/// Relies on str::to_lowercase: Unicode lowercasing, a pure function of
/// the input characters with no locale or environment dependence.
#[verifier::external_body]
pub fn lowercase(s: &str) -> (r: String)
    ensures
        r@ == lower_of(s@),
{
    s.to_lowercase()
}

} // verus!
