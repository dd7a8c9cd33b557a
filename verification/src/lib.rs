//! A custodial ledger: per-owner, per-currency wallets, balance-checked
//! transfers between owners, and an auditable transaction history.
//!
//! The ledger is an owned value. Every operation takes it by reference,
//! together with the current time in milliseconds where the operation stamps
//! a record, so the whole state machine is a function of its arguments.

pub mod address;
pub mod assoc;
pub mod clock;
pub mod currency;
pub mod digest;
pub mod identity;
pub mod keys;
pub mod laws;
pub mod ledger;
pub mod metadata;
pub mod model;
pub mod service;
pub mod text;
pub mod transactions;
pub mod txid;
pub mod types;
pub mod wallets;

pub use address::generate_address;
pub use clock::get_current_timestamp;
pub use identity::Identity;
pub use ledger::Ledger;
pub use metadata::Metadata;
pub use txid::generate_transaction_id;
pub use types::{
    BalanceResponse, CreateWalletRequest, KeyPair, LedgerError, Transaction, TransactionStatus,
    TransferRequest, Wallet, WalletInfo,
};
