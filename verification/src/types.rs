//! The records the ledger keeps and the messages it exchanges.

use crate::identity::Identity;
use crate::metadata::Metadata;
use vstd::prelude::*;

verus! {

/// Why an operation was refused.
#[derive(Debug, Clone, Copy, PartialEq, Eq, Structural)]
pub enum LedgerError {
    /// The owner already has a wallet in this currency.
    AlreadyExists,
    /// The owner has no wallet at all.
    OwnerNotFound,
    /// The owner has wallets, but none in this currency.
    WalletNotFound,
    /// No transaction has this identifier.
    TransactionNotFound,
    /// The owner has no key record.
    KeyNotFound,
    /// Sender and receiver are the same owner.
    SelfTransfer,
    /// The amount to move is zero.
    ZeroAmount,
    /// The sender's balance is below the amount.
    InsufficientFunds,
}

/// The message that goes with each refusal.
pub open spec fn error_text(error: LedgerError) -> Seq<char> {
    match error {
        LedgerError::AlreadyExists => "Wallet already exists for this currency"@,
        LedgerError::OwnerNotFound => "No wallets found for user"@,
        LedgerError::WalletNotFound => "Wallet not found for currency"@,
        LedgerError::TransactionNotFound => "Transaction not found"@,
        LedgerError::KeyNotFound => "Key pair not found"@,
        LedgerError::SelfTransfer => "Cannot transfer to yourself"@,
        LedgerError::ZeroAmount => "Transfer amount must be greater than 0"@,
        LedgerError::InsufficientFunds => "Insufficient balance"@,
    }
}

impl LedgerError {
    /// The message that goes with this refusal.
    pub fn message(&self) -> (text: &'static str)
        ensures
            text@ == error_text(*self),
    {
        match self {
            LedgerError::AlreadyExists => "Wallet already exists for this currency",
            LedgerError::OwnerNotFound => "No wallets found for user",
            LedgerError::WalletNotFound => "Wallet not found for currency",
            LedgerError::TransactionNotFound => "Transaction not found",
            LedgerError::KeyNotFound => "Key pair not found",
            LedgerError::SelfTransfer => "Cannot transfer to yourself",
            LedgerError::ZeroAmount => "Transfer amount must be greater than 0",
            LedgerError::InsufficientFunds => "Insufficient balance",
        }
    }
}

/// A balance record of one owner in one currency.
#[derive(Debug, PartialEq, Eq)]
pub struct Wallet {
    pub address: String,
    pub balance: u64,
    pub currency: String,
    pub created_at: u64,
    pub last_activity: u64,
    pub is_active: bool,
}

/// What a wallet holds, as mathematical values.
pub struct WalletView {
    pub address: Seq<char>,
    pub balance: nat,
    pub currency: Seq<char>,
    pub created_at: u64,
    pub last_activity: u64,
    pub is_active: bool,
}

impl View for Wallet {
    type V = WalletView;

    open spec fn view(&self) -> WalletView {
        WalletView {
            address: self.address@,
            balance: self.balance as nat,
            currency: self.currency@,
            created_at: self.created_at,
            last_activity: self.last_activity,
            is_active: self.is_active,
        }
    }
}

impl Clone for Wallet {
    fn clone(&self) -> (copy: Wallet)
        ensures
            copy@ == self@,
    {
        Wallet {
            address: self.address.clone(),
            balance: self.balance,
            currency: self.currency.clone(),
            created_at: self.created_at,
            last_activity: self.last_activity,
            is_active: self.is_active,
        }
    }
}

/// Where a transaction stands. A transfer is recorded as `Pending` and
/// becomes `Confirmed` once the balances have moved; the other two states
/// are never entered by the ledger itself.
#[derive(Debug, Clone, Copy, PartialEq, Eq, Structural)]
pub enum TransactionStatus {
    Pending,
    Confirmed,
    Failed,
    Cancelled,
}

/// The record of one movement between two owners.
#[derive(Debug, PartialEq, Eq)]
pub struct Transaction {
    pub id: String,
    pub from: Identity,
    pub to: Identity,
    pub amount: u64,
    pub currency: String,
    pub status: TransactionStatus,
    pub timestamp: u64,
    pub tx_hash: Option<String>,
    pub metadata: Metadata,
}

/// What a transaction holds, as mathematical values.
pub struct TransactionView {
    pub id: Seq<char>,
    pub from: Seq<u8>,
    pub to: Seq<u8>,
    pub amount: nat,
    pub currency: Seq<char>,
    pub status: TransactionStatus,
    pub timestamp: u64,
    pub tx_hash: Option<Seq<char>>,
    pub metadata: Map<Seq<char>, Seq<char>>,
}

/// The view of an optional text.
pub open spec fn optional_text_view(text: Option<String>) -> Option<Seq<char>> {
    match text {
        Some(t) => Some(t@),
        None => None,
    }
}

impl View for Transaction {
    type V = TransactionView;

    open spec fn view(&self) -> TransactionView {
        TransactionView {
            id: self.id@,
            from: self.from@,
            to: self.to@,
            amount: self.amount as nat,
            currency: self.currency@,
            status: self.status,
            timestamp: self.timestamp,
            tx_hash: optional_text_view(self.tx_hash),
            metadata: self.metadata@,
        }
    }
}

impl Clone for Transaction {
    fn clone(&self) -> (copy: Transaction)
        ensures
            copy@ == self@,
    {
        Transaction {
            id: self.id.clone(),
            from: self.from.clone(),
            to: self.to.clone(),
            amount: self.amount,
            currency: self.currency.clone(),
            status: self.status,
            timestamp: self.timestamp,
            tx_hash: match &self.tx_hash {
                Some(hash) => Some(hash.clone()),
                None => None,
            },
            metadata: self.metadata.clone(),
        }
    }
}

/// The key material filed for an owner. The secret is opaque to the ledger:
/// it is stored and handed back as it came.
#[derive(Debug, PartialEq, Eq)]
pub struct KeyPair {
    pub public_key: String,
    pub encrypted_private_key: String,
    pub derivation_path: String,
    pub created_at: u64,
}

/// What a key record holds, as mathematical values.
pub struct KeyPairView {
    pub public_key: Seq<char>,
    pub encrypted_private_key: Seq<char>,
    pub derivation_path: Seq<char>,
    pub created_at: u64,
}

impl View for KeyPair {
    type V = KeyPairView;

    open spec fn view(&self) -> KeyPairView {
        KeyPairView {
            public_key: self.public_key@,
            encrypted_private_key: self.encrypted_private_key@,
            derivation_path: self.derivation_path@,
            created_at: self.created_at,
        }
    }
}

impl Clone for KeyPair {
    fn clone(&self) -> (copy: KeyPair)
        ensures
            copy@ == self@,
    {
        KeyPair {
            public_key: self.public_key.clone(),
            encrypted_private_key: self.encrypted_private_key.clone(),
            derivation_path: self.derivation_path.clone(),
            created_at: self.created_at,
        }
    }
}

/// A request to create a wallet for an owner in a currency.
#[derive(Debug, PartialEq, Eq)]
pub struct CreateWalletRequest {
    pub currency: String,
    pub user_principal: Identity,
}

/// A request to move an amount from one owner to another.
#[derive(Debug, PartialEq, Eq)]
pub struct TransferRequest {
    pub from: Identity,
    pub to: Identity,
    pub amount: u64,
    pub currency: String,
    pub memo: Option<String>,
}

/// The answer to a balance query.
#[derive(Debug, PartialEq, Eq)]
pub struct BalanceResponse {
    pub balance: u64,
    pub currency: String,
    pub last_updated: u64,
}

/// What a balance answer holds, as mathematical values.
pub struct BalanceResponseView {
    pub balance: nat,
    pub currency: Seq<char>,
    pub last_updated: u64,
}

impl View for BalanceResponse {
    type V = BalanceResponseView;

    open spec fn view(&self) -> BalanceResponseView {
        BalanceResponseView {
            balance: self.balance as nat,
            currency: self.currency@,
            last_updated: self.last_updated,
        }
    }
}

/// The answer to a wallet query: the wallet, and how many transactions the
/// owner has taken part in.
#[derive(Debug, PartialEq, Eq)]
pub struct WalletInfo {
    pub address: String,
    pub balance: u64,
    pub currency: String,
    pub created_at: u64,
    pub transaction_count: u64,
}

/// What a wallet answer holds, as mathematical values.
pub struct WalletInfoView {
    pub address: Seq<char>,
    pub balance: nat,
    pub currency: Seq<char>,
    pub created_at: u64,
    pub transaction_count: nat,
}

impl View for WalletInfo {
    type V = WalletInfoView;

    open spec fn view(&self) -> WalletInfoView {
        WalletInfoView {
            address: self.address@,
            balance: self.balance as nat,
            currency: self.currency@,
            created_at: self.created_at,
            transaction_count: self.transaction_count as nat,
        }
    }
}

} // verus!
