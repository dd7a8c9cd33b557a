//! Display addresses: where an owner's funds in a currency are said to live.

use crate::digest::{hex_text, to_hex};
use crate::identity::{Identity, MAX_IDENTITY_BYTES};
use crate::text::same_text;
use candid::Principal;
use ic_ledger_types::{AccountIdentifier, Subaccount};
use vstd::prelude::*;
use vstd::string::StringExecFns;

verus! {

/// The number of bytes in an account identifier.
pub const ACCOUNT_BYTES: usize = 32;

/// The account identifier that the service keeps for an owner: the account
/// of the service's own identity whose subaccount is made from the owner's.
pub uninterp spec fn account_id(service: Seq<u8>, owner: Seq<u8>) -> Seq<u8>;

/// `ic_ledger_types::AccountIdentifier::new`, on the principal with the
/// bytes of `service` and the `Subaccount` made from the principal with the
/// bytes of `owner`: the result is the account identifier of the two, which
/// is 32 bytes long. Taken on trust from the `ic-ledger-types` crate.
#[verifier::external_body]
fn account_id_of(service: &Vec<u8>, owner: &Vec<u8>) -> (account: Vec<u8>)
    requires
        service@.len() <= MAX_IDENTITY_BYTES,
        owner@.len() <= MAX_IDENTITY_BYTES,
    ensures
        account@ == account_id(service@, owner@),
        account@.len() == ACCOUNT_BYTES,
{
    let subaccount = Subaccount::from(Principal::from_slice(owner));
    let account = AccountIdentifier::new(&Principal::from_slice(service), &subaccount);
    account.as_bytes().to_vec()
}

/// The address under which an account is shown in a currency: its
/// hexadecimal text, behind `bc1q` for `BTC` and behind `0x` for `ETH`, and
/// bare for every other currency.
pub open spec fn address_text(currency: Seq<char>, account: Seq<u8>) -> Seq<char> {
    if currency == "BTC"@ {
        "bc1q"@ + hex_text(account)
    } else if currency == "ETH"@ {
        "0x"@ + hex_text(account)
    } else {
        hex_text(account)
    }
}

/// The address under which an account is shown in a currency.
pub fn format_address(currency: &str, account: &Vec<u8>) -> (address: String)
    ensures
        address@ == address_text(currency@, account@),
{
    let hex = to_hex(account);
    if same_text(currency, "BTC") {
        "bc1q".to_owned().concat(hex.as_str())
    } else if same_text(currency, "ETH") {
        "0x".to_owned().concat(hex.as_str())
    } else {
        hex
    }
}

/// The display address of an owner in a currency, derived from the
/// service's own identity and the owner's. The same three inputs always
/// give the same address; another service identity gives other addresses.
pub fn generate_address(service: &Identity, owner: &Identity, currency: &str) -> (address: String)
    ensures
        address@ == address_text(currency@, account_id(service@, owner@)),
        account_id(service@, owner@).len() == ACCOUNT_BYTES,
{
    let account = account_id_of(service.as_bytes(), owner.as_bytes());
    format_address(currency, &account)
}

} // verus!
