use candid::Principal;
use ic_ledger_types::{AccountIdentifier, Subaccount};
use sha2::{Digest, Sha256};
use wallet::address::{format_address, generate_address};
use wallet::clock::get_current_timestamp;
use wallet::currency::normalize_currency;
use wallet::digest::{sha256_hex, to_hex};
use wallet::text::same_text;
use wallet::txid::{generate_transaction_id, preimage};
use wallet::{Identity, LedgerError};

fn identity(bytes: &[u8]) -> Identity {
    Identity::from_bytes(bytes.to_vec()).expect("at most 29 bytes")
}

fn service() -> Identity {
    identity(&[0, 0, 0, 0, 0, 0, 0, 2, 1, 1])
}

const ACCOUNT_OF_ONE: &str = "8c76de4961ee225563202eb55633d7d2eef178fb15fc1c316bf606d425cdd0e3";
const ACCOUNT_OF_TWO: &str = "2246b1c4418552817afb12e2ada8b05d527bfcb91440283d3aef74a6695b23d0";

#[test]
fn timestamp_is_whole_milliseconds() {
    assert_eq!(get_current_timestamp(0), 0);
    assert_eq!(get_current_timestamp(999_999), 0);
    assert_eq!(get_current_timestamp(1_000_000), 1);
    assert_eq!(get_current_timestamp(1_700_000_000_123_456_789), 1_700_000_000_123);
    assert_eq!(get_current_timestamp(u64::MAX), 18_446_744_073_709);
}

#[test]
fn currency_codes_are_filed_in_upper_case() {
    assert_eq!(normalize_currency("icp"), "ICP");
    assert_eq!(normalize_currency("Btc"), "BTC");
    assert_eq!(normalize_currency("ETH"), "ETH");
    assert_eq!(normalize_currency(""), "");
    assert_eq!(normalize_currency("usd-2"), "USD-2");
    assert_eq!(normalize_currency("stra\u{df}e"), "STRASSE");
}

#[test]
fn texts_compare_by_their_characters() {
    assert!(same_text("", ""));
    assert!(same_text("ICP", "ICP"));
    assert!(!same_text("ICP", "ICp"));
    assert!(!same_text("ICP", "ICPX"));
    assert!(!same_text("ICPX", "ICP"));
    assert!(same_text("\u{e9}t\u{e9}", "\u{e9}t\u{e9}"));
    assert!(!same_text("\u{e9}", "e"));
}

#[test]
fn identity_holds_at_most_29_bytes() {
    assert!(Identity::from_bytes(Vec::new()).is_some());
    assert!(Identity::from_bytes(vec![7; 29]).is_some());
    assert!(Identity::from_bytes(vec![7; 30]).is_none());
    assert!(Identity::from_bytes(vec![0; 1000]).is_none());
    let id = identity(&[1, 2, 3]);
    assert_eq!(id.as_bytes(), &vec![1, 2, 3]);
}

#[test]
fn identities_are_the_same_when_their_bytes_are() {
    let a = identity(&[1, 2, 3]);
    assert!(a.same(&identity(&[1, 2, 3])));
    assert!(a.same(&a.clone()));
    assert!(!a.same(&identity(&[1, 2])));
    assert!(!a.same(&identity(&[1, 2, 4])));
    assert!(!a.same(&identity(&[])));
    assert!(identity(&[]).same(&identity(&[])));
}

#[test]
fn hex_text_has_two_lower_case_digits_per_byte() {
    assert_eq!(to_hex(&vec![]), "");
    assert_eq!(to_hex(&vec![1, 2, 3, 15, 16]), "0102030f10");
    assert_eq!(to_hex(&vec![0xff, 0x00, 0xab, 0x9c]), "ff00ab9c");
    assert_eq!(to_hex(&b"Hello world!".to_vec()), "48656c6c6f20776f726c6421");
}

#[test]
fn digest_text_matches_known_answers() {
    assert_eq!(
        sha256_hex(&Vec::new()),
        "e3b0c44298fc1c149afbf4c8996fb92427ae41e4649b934ca495991b7852b855"
    );
    assert_eq!(
        sha256_hex(&b"abc".to_vec()),
        "ba7816bf8f01cfea414140de5dae2223b00361a396177a9cb410ff61f20015ad"
    );
}

#[test]
fn preimage_is_texts_then_big_endian_numbers() {
    let bytes = preimage("uuc56-gyb", "hqgi5-iic", 100, 1_700_000_000_000);
    assert_eq!(
        to_hex(&bytes),
        "75756335362d67796268716769352d69696300000000000000640000018bcfe56800"
    );
    let bytes = preimage("", "", 0x0102_0304_0506_0708, u64::MAX);
    assert_eq!(
        bytes,
        vec![1, 2, 3, 4, 5, 6, 7, 8, 255, 255, 255, 255, 255, 255, 255, 255]
    );
    let bytes = preimage("a", "\u{e9}", 0, 1);
    assert_eq!(
        bytes,
        vec![0x61, 0xc3, 0xa9, 0, 0, 0, 0, 0, 0, 0, 0, 0, 0, 0, 0, 0, 0, 0, 1]
    );
}

#[test]
fn transaction_id_matches_known_answers() {
    let a = identity(&[1]);
    let b = identity(&[2]);
    assert_eq!(
        generate_transaction_id(&a, &b, 100, 1_700_000_000_000),
        "7f965eaf1290de661787a52581bbed1c61475b461f7977a10dba48dfa38f4f0c"
    );
    assert_eq!(
        generate_transaction_id(&a, &b, 0, 0),
        "bf7b96ee8e0ff08ed36334fe60e333ef9ad2fb1c884844deec63dde23df7b6b1"
    );
}

#[test]
fn transaction_id_is_the_digest_of_the_four_inputs() {
    let from = Principal::from_slice(&[9, 8, 7, 6, 5]);
    let to = Principal::anonymous();
    let mut hasher = Sha256::new();
    hasher.update(from.to_string());
    hasher.update(to.to_string());
    hasher.update(77u64.to_be_bytes());
    hasher.update(123_456_789u64.to_be_bytes());
    let expected = hex::encode(hasher.finalize());
    let id = generate_transaction_id(
        &identity(from.as_slice()),
        &identity(to.as_slice()),
        77,
        123_456_789,
    );
    assert_eq!(id, expected);
}

#[test]
fn transaction_id_is_64_hex_digits() {
    let id = generate_transaction_id(&identity(&[]), &identity(&[4]), u64::MAX, u64::MAX);
    assert_eq!(id.len(), 64);
    assert!(id.chars().all(|c| c.is_ascii_digit() || ('a'..='f').contains(&c)));
}

#[test]
fn transaction_id_depends_on_each_input() {
    let a = identity(&[1]);
    let b = identity(&[2]);
    let base = generate_transaction_id(&a, &b, 5, 10);
    assert_eq!(generate_transaction_id(&a, &b, 5, 10), base);
    assert_ne!(generate_transaction_id(&b, &a, 5, 10), base);
    assert_ne!(generate_transaction_id(&a, &identity(&[3]), 5, 10), base);
    assert_ne!(generate_transaction_id(&a, &b, 6, 10), base);
    assert_ne!(generate_transaction_id(&a, &b, 5, 11), base);
    assert_ne!(generate_transaction_id(&a, &b, 10, 5), base);
}

#[test]
fn address_matches_known_answers() {
    let one = identity(&[1]);
    let two = identity(&[2]);
    assert_eq!(generate_address(&service(), &one, "ICP"), ACCOUNT_OF_ONE);
    assert_eq!(generate_address(&service(), &two, "ICP"), ACCOUNT_OF_TWO);
    assert_eq!(
        generate_address(&identity(&[]), &identity(&[]), "ICP"),
        "2d0e897f7e862d2b57d9bc9ea5c65f9a24ac6c074575f47898314b8d6cb0929d"
    );
}

#[test]
fn address_carries_the_prefix_of_its_currency() {
    let one = identity(&[1]);
    assert_eq!(
        generate_address(&service(), &one, "BTC"),
        format!("bc1q{}", ACCOUNT_OF_ONE)
    );
    assert_eq!(
        generate_address(&service(), &one, "ETH"),
        format!("0x{}", ACCOUNT_OF_ONE)
    );
    assert_eq!(generate_address(&service(), &one, "DOGE"), ACCOUNT_OF_ONE);
    assert_eq!(generate_address(&service(), &one, ""), ACCOUNT_OF_ONE);
    assert_eq!(generate_address(&service(), &one, "btc"), ACCOUNT_OF_ONE);
    assert_eq!(generate_address(&service(), &one, "Eth"), ACCOUNT_OF_ONE);
}

#[test]
fn address_is_the_account_of_service_and_owner() {
    let service_principal = Principal::from_slice(&[0, 0, 0, 0, 0, 0, 0, 4, 1, 1]);
    let owner = Principal::from_slice(&[5; 29]);
    let account = AccountIdentifier::new(&service_principal, &Subaccount::from(owner));
    let address = generate_address(
        &identity(service_principal.as_slice()),
        &identity(owner.as_slice()),
        "ICP",
    );
    assert_eq!(address, account.to_string());
    assert_eq!(address, account.to_hex());
    assert_eq!(address.len(), 64);
}

#[test]
fn address_changes_with_the_service_identity() {
    let one = identity(&[1]);
    let here = generate_address(&service(), &one, "ICP");
    let there = generate_address(&identity(&[0, 0, 0, 0, 0, 0, 0, 4, 1, 1]), &one, "ICP");
    assert_ne!(here, there);
    assert_eq!(generate_address(&service(), &one, "ICP"), here);
}

#[test]
fn formatted_address_is_prefix_and_hex() {
    assert_eq!(format_address("ICP", &vec![0xde, 0xad]), "dead");
    assert_eq!(format_address("BTC", &vec![0xde, 0xad]), "bc1qdead");
    assert_eq!(format_address("ETH", &vec![0xde, 0xad]), "0xdead");
    assert_eq!(format_address("ETH", &vec![]), "0x");
    assert_eq!(format_address("XRP", &vec![0, 1]), "0001");
}

#[test]
fn every_refusal_has_its_message() {
    assert_eq!(
        LedgerError::AlreadyExists.message(),
        "Wallet already exists for this currency"
    );
    assert_eq!(LedgerError::OwnerNotFound.message(), "No wallets found for user");
    assert_eq!(LedgerError::WalletNotFound.message(), "Wallet not found for currency");
    assert_eq!(LedgerError::TransactionNotFound.message(), "Transaction not found");
    assert_eq!(LedgerError::KeyNotFound.message(), "Key pair not found");
    assert_eq!(LedgerError::SelfTransfer.message(), "Cannot transfer to yourself");
    assert_eq!(
        LedgerError::ZeroAmount.message(),
        "Transfer amount must be greater than 0"
    );
    assert_eq!(LedgerError::InsufficientFunds.message(), "Insufficient balance");
}
