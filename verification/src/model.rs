//! The ledger as a mathematical value, and what each request makes of it.

use crate::transactions::{ids_of, recorded, HistoryView};
use crate::types::{
    BalanceResponseView, KeyPairView, LedgerError, TransactionStatus, TransactionView,
    WalletInfoView, WalletView,
};
use crate::wallets::{credited, debited, fresh_wallet, lookup, WalletKey};
use vstd::prelude::*;

verus! {

/// What the ledger holds: the wallets by owner and currency, their keys in
/// the order in which the wallets were created, the key records by owner,
/// and the transaction history.
pub struct LedgerView {
    pub wallets: Map<WalletKey, WalletView>,
    pub wallet_order: Seq<WalletKey>,
    pub keys: Map<Seq<u8>, KeyPairView>,
    pub history: HistoryView,
}

/// The descriptor filed with every key record.
pub open spec fn derivation_path() -> Seq<char> {
    "m/44'/0'/0'/0/0"@
}

/// The key record filed when a wallet is created: the wallet's address as
/// the public key, the sealed secret as it was handed in.
pub open spec fn key_record(address: Seq<char>, sealed_key: Seq<char>, now: u64) -> KeyPairView {
    KeyPairView {
        public_key: address,
        encrypted_private_key: sealed_key,
        derivation_path: derivation_path(),
        created_at: now,
    }
}

/// What creating a wallet returns: the new wallet, or `AlreadyExists` when
/// the owner has a wallet in the currency.
pub open spec fn open_wallet_result(
    state: LedgerView,
    owner: Seq<u8>,
    currency: Seq<char>,
    address: Seq<char>,
    now: u64,
) -> Result<WalletView, LedgerError> {
    if state.wallets.dom().contains((owner, currency)) {
        Err(LedgerError::AlreadyExists)
    } else {
        Ok(fresh_wallet(address, currency, now))
    }
}

/// The ledger after a wallet has been asked for. A refused request changes
/// nothing. Otherwise the new wallet is filed behind the existing ones, and
/// the owner's key record is replaced.
pub open spec fn after_open_wallet(
    state: LedgerView,
    owner: Seq<u8>,
    currency: Seq<char>,
    address: Seq<char>,
    sealed_key: Seq<char>,
    now: u64,
) -> LedgerView {
    if state.wallets.dom().contains((owner, currency)) {
        state
    } else {
        LedgerView {
            wallets: state.wallets.insert((owner, currency), fresh_wallet(address, currency, now)),
            wallet_order: state.wallet_order.push((owner, currency)),
            keys: state.keys.insert(owner, key_record(address, sealed_key, now)),
            history: state.history,
        }
    }
}

/// The ledger after `amount` has been added to a wallet from outside. A
/// ledger without that wallet stays as it is.
pub open spec fn after_credit(
    state: LedgerView,
    owner: Seq<u8>,
    currency: Seq<char>,
    amount: nat,
    now: u64,
) -> LedgerView {
    if state.wallets.dom().contains((owner, currency)) {
        LedgerView {
            wallets: state.wallets.insert(
                (owner, currency),
                credited(state.wallets[(owner, currency)], amount, now),
            ),
            ..state
        }
    } else {
        state
    }
}

/// Whether a transfer may go ahead, and if not, why. The checks are made in
/// this order: the two owners differ; the amount is not zero; the sender
/// has a wallet in the currency; the wallet holds the amount.
pub open spec fn transfer_check(
    state: LedgerView,
    from: Seq<u8>,
    to: Seq<u8>,
    amount: nat,
    currency: Seq<char>,
) -> Result<(), LedgerError> {
    if from == to {
        Err(LedgerError::SelfTransfer)
    } else if amount == 0 {
        Err(LedgerError::ZeroAmount)
    } else {
        match lookup(state.wallets, from, currency) {
            Err(error) => Err(error),
            Ok(wallet) => if wallet.balance < amount {
                Err(LedgerError::InsufficientFunds)
            } else {
                Ok(())
            },
        }
    }
}

/// The record of a completed transfer.
pub open spec fn transfer_record(
    from: Seq<u8>,
    to: Seq<u8>,
    amount: nat,
    currency: Seq<char>,
    now: u64,
    id: Seq<char>,
) -> TransactionView {
    TransactionView {
        id,
        from,
        to,
        amount,
        currency,
        status: TransactionStatus::Confirmed,
        timestamp: now,
        tx_hash: None,
        metadata: Map::empty(),
    }
}

/// The wallets after a transfer that may go ahead: the amount has left the
/// sender's wallet, and has reached the receiver's wallet if the receiver
/// has one in the currency. Without such a wallet the amount is gone.
pub open spec fn moved(
    wallets: Map<WalletKey, WalletView>,
    from: Seq<u8>,
    to: Seq<u8>,
    amount: nat,
    currency: Seq<char>,
    now: u64,
) -> Map<WalletKey, WalletView> {
    let sent = wallets.insert((from, currency), debited(wallets[(from, currency)], amount, now));
    if sent.dom().contains((to, currency)) {
        sent.insert((to, currency), credited(sent[(to, currency)], amount, now))
    } else {
        sent
    }
}

/// The ledger after a transfer has been asked for. A refused transfer
/// changes nothing. Otherwise the balances have moved and the transfer is
/// on record as confirmed, filed for the sender and for the receiver.
pub open spec fn after_transfer(
    state: LedgerView,
    from: Seq<u8>,
    to: Seq<u8>,
    amount: nat,
    currency: Seq<char>,
    now: u64,
    id: Seq<char>,
) -> LedgerView {
    if transfer_check(state, from, to, amount, currency) is Err {
        state
    } else {
        LedgerView {
            wallets: moved(state.wallets, from, to, amount, currency, now),
            history: recorded(state.history, transfer_record(from, to, amount, currency, now, id)),
            ..state
        }
    }
}

/// The answer to a balance query.
pub open spec fn balance_answer(state: LedgerView, owner: Seq<u8>, currency: Seq<char>) -> Result<
    BalanceResponseView,
    LedgerError,
> {
    match lookup(state.wallets, owner, currency) {
        Err(error) => Err(error),
        Ok(wallet) => Ok(
            BalanceResponseView {
                balance: wallet.balance,
                currency: wallet.currency,
                last_updated: wallet.last_activity,
            },
        ),
    }
}

/// The answer to a wallet query. The count is that of all transactions
/// filed for the owner, whatever their currency.
pub open spec fn wallet_info_answer(state: LedgerView, owner: Seq<u8>, currency: Seq<char>) -> Result<
    WalletInfoView,
    LedgerError,
> {
    match lookup(state.wallets, owner, currency) {
        Err(error) => Err(error),
        Ok(wallet) => Ok(
            WalletInfoView {
                address: wallet.address,
                balance: wallet.balance,
                currency: wallet.currency,
                created_at: wallet.created_at,
                transaction_count: ids_of(state.history.index, owner).len(),
            },
        ),
    }
}

/// Whether the parts of a ledger fit together: the wallets are those listed
/// in the creation order, each once and under its own currency; every owner
/// of a wallet has a key record; every transaction on record stands under
/// its own identifier and is confirmed; and every identifier filed for an
/// owner has its record.
pub open spec fn consistent(state: LedgerView) -> bool {
    &&& state.wallet_order.no_duplicates()
    &&& forall|key: WalletKey| state.wallets.dom().contains(key) <==> state.wallet_order.contains(key)
    &&& forall|key: WalletKey| #[trigger]
        state.wallets.dom().contains(key) ==> state.wallets[key].currency == key.1
            && state.keys.dom().contains(key.0)
    &&& forall|id: Seq<char>| #[trigger]
        state.history.records.dom().contains(id) ==> state.history.records[id].id == id
            && state.history.records[id].status == TransactionStatus::Confirmed
    &&& forall|owner: Seq<u8>, i: int|
        state.history.index.dom().contains(owner) && 0 <= i < state.history.index[owner].len()
            ==> state.history.records.dom().contains(#[trigger] state.history.index[owner][i])
}

/// The ledger that holds nothing.
pub open spec fn empty_ledger() -> LedgerView {
    LedgerView {
        wallets: Map::empty(),
        wallet_order: Seq::empty(),
        keys: Map::empty(),
        history: HistoryView { records: Map::empty(), index: Map::empty() },
    }
}

/// The empty ledger is consistent.
pub proof fn lemma_empty_consistent()
    ensures
        consistent(empty_ledger()),
{
}

/// Asking for a wallet keeps a consistent ledger consistent.
pub proof fn lemma_open_wallet_consistent(
    state: LedgerView,
    owner: Seq<u8>,
    currency: Seq<char>,
    address: Seq<char>,
    sealed_key: Seq<char>,
    now: u64,
)
    requires
        consistent(state),
    ensures
        consistent(after_open_wallet(state, owner, currency, address, sealed_key, now)),
{
    if !state.wallets.dom().contains((owner, currency)) {
        let key = (owner, currency);
        let longer = state.wallet_order.push(key);
        assert(!state.wallet_order.contains(key));
        assert(longer.no_duplicates());
        assert forall|other: WalletKey|
            longer.contains(other) <==> state.wallet_order.contains(other) || other == key by {
            if state.wallet_order.contains(other) {
                assert(longer[state.wallet_order.index_of(other)] == other);
            }
            if other == key {
                assert(longer[state.wallet_order.len() as int] == key);
            }
            if longer.contains(other) && other != key {
                assert(state.wallet_order[longer.index_of(other)] == other);
            }
        }
    }
}

/// A credit keeps a consistent ledger consistent.
pub proof fn lemma_credit_consistent(
    state: LedgerView,
    owner: Seq<u8>,
    currency: Seq<char>,
    amount: nat,
    now: u64,
)
    requires
        consistent(state),
    ensures
        consistent(after_credit(state, owner, currency, amount, now)),
{
}

/// A transfer keeps a consistent ledger consistent.
pub proof fn lemma_transfer_consistent(
    state: LedgerView,
    from: Seq<u8>,
    to: Seq<u8>,
    amount: nat,
    currency: Seq<char>,
    now: u64,
    id: Seq<char>,
)
    requires
        consistent(state),
    ensures
        consistent(after_transfer(state, from, to, amount, currency, now, id)),
{
}

} // verus!
