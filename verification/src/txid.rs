//! Transaction identifiers.

use crate::digest::{hex_text, is_hex_digit, sha256_digest, sha256_hex, DIGEST_BYTES};
use crate::identity::{Identity, MAX_IDENTITY_BYTES};
use candid::Principal;
use vstd::prelude::*;
use vstd::utf8::encode_utf8;

verus! {

/// The textual form of an identity.
pub uninterp spec fn principal_text(identity: Seq<u8>) -> Seq<char>;

/// `candid::Principal::to_text`, on the principal with the bytes of
/// `identity`: the result is the textual form of that identity. Taken on
/// trust from the `candid` crate.
#[verifier::external_body]
fn principal_text_of(identity: &Vec<u8>) -> (text: String)
    requires
        identity@.len() <= MAX_IDENTITY_BYTES,
    ensures
        text@ == principal_text(identity@),
{
    Principal::from_slice(identity).to_text()
}

/// The eight bytes of a number, most significant first.
pub open spec fn be_bytes(value: u64) -> Seq<u8> {
    seq![
        (value / 0x100_0000_0000_0000 % 256) as u8,
        (value / 0x1_0000_0000_0000 % 256) as u8,
        (value / 0x100_0000_0000 % 256) as u8,
        (value / 0x1_0000_0000 % 256) as u8,
        (value / 0x100_0000 % 256) as u8,
        (value / 0x1_0000 % 256) as u8,
        (value / 0x100 % 256) as u8,
        (value % 256) as u8,
    ]
}

/// The bytes from which a transaction identifier is made: the sender's and
/// the receiver's text in UTF-8, then the amount and the timestamp, each as
/// eight bytes with the most significant first.
pub open spec fn transaction_preimage(
    from_text: Seq<char>,
    to_text: Seq<char>,
    amount: u64,
    timestamp: u64,
) -> Seq<u8> {
    encode_utf8(from_text) + encode_utf8(to_text) + be_bytes(amount) + be_bytes(timestamp)
}

/// The identifier of the transfer of `amount` from one owner to another at
/// `timestamp`: the hexadecimal text of the SHA-256 digest of its preimage.
pub open spec fn transaction_id(from: Seq<u8>, to: Seq<u8>, amount: u64, timestamp: u64) -> Seq<char> {
    hex_text(
        sha256_digest(
            transaction_preimage(principal_text(from), principal_text(to), amount, timestamp),
        ),
    )
}

fn push_all(out: &mut Vec<u8>, bytes: &[u8])
    ensures
        final(out)@ == old(out)@ + bytes@,
{
    let mut i: usize = 0;
    while i < bytes.len()
        invariant
            0 <= i <= bytes@.len(),
            out@ == old(out)@ + bytes@.take(i as int),
        decreases bytes@.len() - i,
    {
        out.push(bytes[i]);
        i += 1;
    }
}

fn push_be(out: &mut Vec<u8>, value: u64)
    ensures
        final(out)@ == old(out)@ + be_bytes(value),
{
    out.push((value / 0x100_0000_0000_0000 % 256) as u8);
    out.push((value / 0x1_0000_0000_0000 % 256) as u8);
    out.push((value / 0x100_0000_0000 % 256) as u8);
    out.push((value / 0x1_0000_0000 % 256) as u8);
    out.push((value / 0x100_0000 % 256) as u8);
    out.push((value / 0x1_0000 % 256) as u8);
    out.push((value / 0x100 % 256) as u8);
    out.push((value % 256) as u8);
}

/// The bytes from which a transaction identifier is made, for a sender and
/// a receiver given by their texts.
pub fn preimage(from_text: &str, to_text: &str, amount: u64, timestamp: u64) -> (bytes: Vec<u8>)
    ensures
        bytes@ == transaction_preimage(from_text@, to_text@, amount, timestamp),
{
    let mut bytes: Vec<u8> = Vec::new();
    push_all(&mut bytes, from_text.as_bytes());
    push_all(&mut bytes, to_text.as_bytes());
    push_be(&mut bytes, amount);
    push_be(&mut bytes, timestamp);
    bytes
}

/// The identifier of the transfer of `amount` from one owner to another at
/// `timestamp`: 64 lower-case hexadecimal digits. The same four inputs
/// always give the same identifier.
pub fn generate_transaction_id(from: &Identity, to: &Identity, amount: u64, timestamp: u64) -> (id:
    String)
    ensures
        id@ == transaction_id(from@, to@, amount, timestamp),
        id@.len() == 2 * DIGEST_BYTES,
        forall|i: int| 0 <= i < id@.len() ==> is_hex_digit(#[trigger] id@[i]),
{
    let from_text = principal_text_of(from.as_bytes());
    let to_text = principal_text_of(to.as_bytes());
    let bytes = preimage(from_text.as_str(), to_text.as_str(), amount, timestamp);
    sha256_hex(&bytes)
}

} // verus!
