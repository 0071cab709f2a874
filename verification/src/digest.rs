//! Content digests: SHA3-256 for migration files, Keccak-256 for stored
//! passwords, both rendered as lowercase hexadecimal text.

use vstd::prelude::*;
use vstd::string::StringSliceAdditionalSpecFns;
use sha3::{Digest, Keccak256, Sha3_256};

use crate::text::digit_char;

verus! {

/// The SHA3-256 digest of a byte sequence.
pub uninterp spec fn sha3_256_of(data: Seq<u8>) -> Seq<u8>;

/// The Keccak-256 digest of a byte sequence.
pub uninterp spec fn keccak256_of(data: Seq<u8>) -> Seq<u8>;

/// The lowercase hexadecimal rendering of a byte sequence: two digits for
/// each byte, high-order digit first.
pub open spec fn hex_chars(data: Seq<u8>) -> Seq<char>
    decreases data.len(),
{
    if data.len() == 0 {
        Seq::empty()
    } else {
        seq![digit_char(data[0] / 16), digit_char(data[0] % 16)]
            + hex_chars(data.drop_first())
    }
}

/// Relies on sha3's `Sha3_256` (through the `Digest` trait): the digest
/// depends on the input bytes alone and is 32 bytes long.
#[verifier::external_body]
fn sha3_256(data: &[u8]) -> (r: Vec<u8>)
    ensures
        r@ == sha3_256_of(data@),
        r@.len() == 32,
{
    let mut hasher = Sha3_256::new();
    hasher.update(data);
    hasher.finalize().to_vec()
}

/// Relies on sha3's `Keccak256` (through the `Digest` trait): the digest
/// depends on the input bytes alone and is 32 bytes long.
#[verifier::external_body]
fn keccak256(data: &[u8]) -> (r: Vec<u8>)
    ensures
        r@ == keccak256_of(data@),
        r@.len() == 32,
{
    let mut hasher = Keccak256::new();
    hasher.update(data);
    hasher.finalize().to_vec()
}

/// Relies on hex::encode: two lowercase hexadecimal digits for each input
/// byte, high-order digit first.
#[verifier::external_body]
fn hex_encode(data: &[u8]) -> (r: String)
    ensures
        r@ == hex_chars(data@),
{
    hex::encode(data)
}

/// The content hash recorded for a migration: the hex-encoded SHA3-256
/// digest of the UTF-8 bytes of the statement text.
pub open spec fn text_hash(text: Seq<char>) -> Seq<char> {
    hex_chars(sha3_256_of(vstd::utf8::encode_utf8(text)))
}

/// Computes the content hash of a migration's statement text.
pub fn content_hash(text: &str) -> (r: String)
    ensures
        r@ == text_hash(text@),
{
    let digest = sha3_256(text.as_bytes());
    hex_encode(digest.as_slice())
}

/// The hash under which a password is stored: the hex-encoded Keccak-256
/// digest of the UTF-8 bytes of the password text.
pub open spec fn hashed_password(password: Seq<char>) -> Seq<char> {
    hex_chars(keccak256_of(vstd::utf8::encode_utf8(password)))
}

/// Computes the stored hash of a password.
pub fn password_hash(password: &str) -> (r: String)
    ensures
        r@ == hashed_password(password@),
{
    let digest = keccak256(password.as_bytes());
    hex_encode(digest.as_slice())
}

} // verus!
