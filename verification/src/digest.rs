//! Digests and their textual form.

use sha2::Digest;
use vstd::prelude::*;

verus! {

/// The SHA-256 digest of a byte string.
pub uninterp spec fn sha256_digest(data: Seq<u8>) -> Seq<u8>;

/// The number of bytes in a SHA-256 digest.
pub const DIGEST_BYTES: usize = 32;

/// `sha2::Sha256::digest`: the result is the SHA-256 digest of `data`, which
/// is 32 bytes long. Taken on trust from the `sha2` crate.
#[verifier::external_body]
fn sha256_of(data: &Vec<u8>) -> (digest: Vec<u8>)
    ensures
        digest@ == sha256_digest(data@),
        digest@.len() == DIGEST_BYTES,
{
    sha2::Sha256::digest(data).to_vec()
}

/// The lower-case hexadecimal digit of a value below sixteen.
pub open spec fn hex_digit(nibble: int) -> char {
    seq!['0', '1', '2', '3', '4', '5', '6', '7', '8', '9', 'a', 'b', 'c', 'd', 'e', 'f'][nibble]
}

/// Whether a character is a lower-case hexadecimal digit.
pub open spec fn is_hex_digit(c: char) -> bool {
    ('0' <= c && c <= '9') || ('a' <= c && c <= 'f')
}

/// The lower-case hexadecimal text of a byte string: two digits per byte,
/// the high half of each byte first.
pub open spec fn hex_text(bytes: Seq<u8>) -> Seq<char> {
    Seq::new(
        2 * bytes.len(),
        |i: int|
            if i % 2 == 0 {
                hex_digit(bytes[i / 2] as int / 16)
            } else {
                hex_digit(bytes[i / 2] as int % 16)
            },
    )
}

/// `hex::encode`: the result is the lower-case hexadecimal text of `bytes`.
/// Taken on trust from the `hex` crate.
#[verifier::external_body]
fn hex_of(bytes: &Vec<u8>) -> (text: String)
    ensures
        text@ == hex_text(bytes@),
{
    hex::encode(bytes)
}

/// Hexadecimal text has two characters per byte, each a lower-case
/// hexadecimal digit.
pub proof fn lemma_hex_text_shape(bytes: Seq<u8>)
    ensures
        hex_text(bytes).len() == 2 * bytes.len(),
        forall|i: int| 0 <= i < hex_text(bytes).len() ==> is_hex_digit(#[trigger] hex_text(bytes)[i]),
{
}

/// The lower-case hexadecimal text of a byte string.
pub fn to_hex(bytes: &Vec<u8>) -> (text: String)
    ensures
        text@ == hex_text(bytes@),
        text@.len() == 2 * bytes@.len(),
        forall|i: int| 0 <= i < text@.len() ==> is_hex_digit(#[trigger] text@[i]),
{
    proof {
        lemma_hex_text_shape(bytes@);
    }
    hex_of(bytes)
}

/// The hexadecimal text of the SHA-256 digest of a byte string: 64
/// lower-case hexadecimal digits.
pub fn sha256_hex(data: &Vec<u8>) -> (text: String)
    ensures
        text@ == hex_text(sha256_digest(data@)),
        text@.len() == 2 * DIGEST_BYTES,
        forall|i: int| 0 <= i < text@.len() ==> is_hex_digit(#[trigger] text@[i]),
{
    let digest = sha256_of(data);
    to_hex(&digest)
}

} // verus!
