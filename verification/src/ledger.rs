//! The ledger: wallets, key records and transactions under one owner, and
//! the operations that keep them in step.

use crate::identity::Identity;
use crate::keys::KeyRegistry;
use crate::metadata::Metadata;
use crate::model::{
    after_credit, after_open_wallet, after_transfer, balance_answer, consistent, empty_ledger,
    lemma_credit_consistent, lemma_empty_consistent, lemma_open_wallet_consistent,
    lemma_transfer_consistent, moved, open_wallet_result, transfer_check, transfer_record,
    wallet_info_answer, LedgerView,
};
use crate::transactions::{
    ids_of, is_newest_first, newest_first, recorded, resolved, transaction_views,
    TransactionLedger,
};
use crate::types::{
    BalanceResponse, BalanceResponseView, KeyPair, LedgerError, Transaction,
    TransactionStatus, TransactionView, Wallet, WalletInfo, WalletInfoView, WalletView,
};
use crate::wallets::{owned_wallets, wallet_views, WalletKey, WalletRegistry};
use vstd::prelude::*;

verus! {

/// The system of record. It owns the three registries; nothing else can
/// change them.
pub struct Ledger {
    wallets: WalletRegistry,
    keys: KeyRegistry,
    transactions: TransactionLedger,
}

impl View for Ledger {
    type V = LedgerView;

    closed spec fn view(&self) -> LedgerView {
        LedgerView {
            wallets: self.wallets@,
            wallet_order: self.wallets.order(),
            keys: self.keys@,
            history: self.transactions@,
        }
    }
}

impl Ledger {
    /// The ledger is well formed: an owner has at most one wallet per
    /// currency, one key record and one history; an identifier has at most
    /// one transaction; the supply of every currency fits in a `u64`; and
    /// the parts fit together.
    pub closed spec fn wf(&self) -> bool {
        &&& self.wallets.wf()
        &&& self.keys.wf()
        &&& self.transactions.wf()
        &&& consistent(self@)
    }

    /// The sum of all balances held in one currency.
    pub closed spec fn supply(&self, currency: Seq<char>) -> nat {
        self.wallets.supply(currency)
    }

    /// In a well-formed ledger the parts fit together, the wallets are
    /// finitely many, and no balance exceeds the supply of its currency,
    /// which fits in a `u64`.
    pub proof fn lemma_wf(&self)
        requires
            self.wf(),
        ensures
            consistent(self@),
            self@.wallets.dom().finite(),
            forall|key: WalletKey| #[trigger]
                self@.wallets.dom().contains(key) ==> self@.wallets[key].balance <= self.supply(
                    key.1,
                ),
            forall|currency: Seq<char>| #[trigger] self.supply(currency) <= u64::MAX,
    {
        self.wallets.lemma_wf();
    }

    /// A ledger that holds nothing.
    pub fn new() -> (ledger: Ledger)
        ensures
            ledger.wf(),
            ledger@ == empty_ledger(),
            forall|currency: Seq<char>| ledger.supply(currency) == 0,
    {
        let ledger = Ledger {
            wallets: WalletRegistry::new(),
            keys: KeyRegistry::new(),
            transactions: TransactionLedger::new(),
        };
        proof {
            lemma_empty_consistent();
        }
        ledger
    }

    /// Whether the owner has a wallet in this currency.
    pub fn has_wallet(&self, owner: &Identity, currency: &str) -> (present: bool)
        ensures
            present == self@.wallets.dom().contains((owner@, currency@)),
    {
        self.wallets.contains(owner, currency)
    }

    /// Creates the owner's wallet in this currency with the given address,
    /// empty and active, files the owner's key record, and returns a copy of
    /// the wallet. Refused with `AlreadyExists`, and nothing changed, when
    /// the owner already has a wallet in the currency.
    pub fn open_wallet(
        &mut self,
        owner: &Identity,
        currency: &str,
        address: String,
        sealed_key: String,
        now: u64,
    ) -> (opened: Result<Wallet, LedgerError>)
        requires
            old(self).wf(),
        ensures
            final(self).wf(),
            final(self)@ == after_open_wallet(
                old(self)@,
                owner@,
                currency@,
                address@,
                sealed_key@,
                now,
            ),
            match opened {
                Ok(wallet) => open_wallet_result(old(self)@, owner@, currency@, address@, now) == Ok::<
                    WalletView,
                    LedgerError,
                >(wallet@),
                Err(error) => open_wallet_result(old(self)@, owner@, currency@, address@, now)
                    == Err::<WalletView, LedgerError>(error),
            },
            forall|code: Seq<char>| final(self).supply(code) == old(self).supply(code),
    {
        if self.wallets.contains(owner, currency) {
            return Err(LedgerError::AlreadyExists);
        }
        let record = KeyPair {
            public_key: address.clone(),
            encrypted_private_key: sealed_key,
            derivation_path: "m/44'/0'/0'/0/0".to_owned(),
            created_at: now,
        };
        self.keys.put(owner, record);
        let opened = self.wallets.create(owner, currency, address, now);
        proof {
            lemma_open_wallet_consistent(old(self)@, owner@, currency@, address@, sealed_key@, now);
        }
        opened
    }

    /// Adds `amount` to the owner's wallet in this currency, from outside
    /// the ledger, and stamps the wallet with `now`. When the owner has no
    /// such wallet nothing changes and the result is `false`. The supply of
    /// the currency must still fit in a `u64` afterwards.
    pub fn credit(&mut self, owner: &Identity, currency: &str, amount: u64, now: u64) -> (applied:
        bool)
        requires
            old(self).wf(),
            old(self)@.wallets.dom().contains((owner@, currency@)) ==> old(self).supply(currency@)
                + amount <= u64::MAX,
        ensures
            final(self).wf(),
            applied == old(self)@.wallets.dom().contains((owner@, currency@)),
            final(self)@ == after_credit(old(self)@, owner@, currency@, amount as nat, now),
            applied ==> final(self).supply(currency@) == old(self).supply(currency@) + amount,
            !applied ==> final(self).supply(currency@) == old(self).supply(currency@),
            forall|code: Seq<char>|
                code != currency@ ==> final(self).supply(code) == old(self).supply(code),
    {
        let applied = self.wallets.credit(owner, currency, amount, now);
        proof {
            lemma_credit_consistent(old(self)@, owner@, currency@, amount as nat, now);
        }
        applied
    }

    /// The sum of all balances held in this currency.
    pub fn total_supply(&self, currency: &str) -> (total: u64)
        requires
            self.wf(),
        ensures
            total == self.supply(currency@),
    {
        self.wallets.total_supply(currency)
    }

    /// The owner's balance in this currency, or the reason why the owner has
    /// no such wallet.
    pub fn balance_of(&self, owner: &Identity, currency: &str) -> (answer: Result<
        BalanceResponse,
        LedgerError,
    >)
        requires
            self.wf(),
        ensures
            match answer {
                Ok(response) => balance_answer(self@, owner@, currency@) == Ok::<
                    BalanceResponseView,
                    LedgerError,
                >(response@),
                Err(error) => balance_answer(self@, owner@, currency@) == Err::<
                    BalanceResponseView,
                    LedgerError,
                >(error),
            },
    {
        match self.wallets.get(owner, currency) {
            Err(error) => Err(error),
            Ok(wallet) => Ok(
                BalanceResponse {
                    balance: wallet.balance,
                    currency: wallet.currency,
                    last_updated: wallet.last_activity,
                },
            ),
        }
    }

    /// The owner's wallet in this currency with the number of transactions
    /// filed for the owner, or the reason why the owner has no such wallet.
    pub fn wallet_info_of(&self, owner: &Identity, currency: &str) -> (answer: Result<
        WalletInfo,
        LedgerError,
    >)
        requires
            self.wf(),
        ensures
            match answer {
                Ok(info) => wallet_info_answer(self@, owner@, currency@) == Ok::<
                    WalletInfoView,
                    LedgerError,
                >(info@),
                Err(error) => wallet_info_answer(self@, owner@, currency@) == Err::<
                    WalletInfoView,
                    LedgerError,
                >(error),
            },
    {
        match self.wallets.get(owner, currency) {
            Err(error) => Err(error),
            Ok(wallet) => Ok(
                WalletInfo {
                    address: wallet.address,
                    balance: wallet.balance,
                    currency: wallet.currency,
                    created_at: wallet.created_at,
                    transaction_count: self.transactions.count(owner),
                },
            ),
        }
    }

    /// Copies of the owner's wallets, oldest first. Empty when the owner has
    /// none.
    pub fn get_user_wallets(&self, owner: &Identity) -> (wallets: Vec<Wallet>)
        requires
            self.wf(),
        ensures
            wallet_views(wallets@) == owned_wallets(self@.wallet_order, self@.wallets, owner@),
    {
        self.wallets.list(owner)
    }

    /// A copy of the transaction with this identifier, or
    /// `TransactionNotFound`.
    pub fn get_transaction(&self, id: &str) -> (found: Result<Transaction, LedgerError>)
        requires
            self.wf(),
        ensures
            match found {
                Ok(transaction) => self@.history.records.dom().contains(id@) && transaction@
                    == self@.history.records[id@],
                Err(error) => !self@.history.records.dom().contains(id@) && error
                    == LedgerError::TransactionNotFound,
            },
    {
        self.transactions.get(id)
    }

    /// Copies of the transactions filed for the owner, most recent first.
    /// Transactions with the same timestamp come in the order in which they
    /// were filed. Empty when none was filed.
    pub fn get_user_transactions(&self, owner: &Identity) -> (list: Vec<Transaction>)
        requires
            self.wf(),
        ensures
            transaction_views(list@) == newest_first(
                resolved(ids_of(self@.history.index, owner@), self@.history.records),
            ),
            is_newest_first(transaction_views(list@)),
            transaction_views(list@).to_multiset() == resolved(
                ids_of(self@.history.index, owner@),
                self@.history.records,
            ).to_multiset(),
    {
        self.transactions.history(owner)
    }

    /// A copy of the owner's key record, or `KeyNotFound`.
    pub fn get_key_pair(&self, owner: &Identity) -> (found: Result<KeyPair, LedgerError>)
        requires
            self.wf(),
        ensures
            match found {
                Ok(record) => self@.keys.dom().contains(owner@) && record@ == self@.keys[owner@],
                Err(error) => !self@.keys.dom().contains(owner@) && error == LedgerError::KeyNotFound,
            },
    {
        self.keys.get(owner)
    }

    /// Whether a transfer may go ahead, and if not, why. Nothing changes.
    pub fn check_transfer(&self, from: &Identity, to: &Identity, amount: u64, currency: &str) -> (checked:
        Result<(), LedgerError>)
        requires
            self.wf(),
        ensures
            checked == transfer_check(self@, from@, to@, amount as nat, currency@),
    {
        if from.same(to) {
            return Err(LedgerError::SelfTransfer);
        }
        if amount == 0 {
            return Err(LedgerError::ZeroAmount);
        }
        match self.wallets.get(from, currency) {
            Err(error) => Err(error),
            Ok(wallet) => if wallet.balance < amount {
                Err(LedgerError::InsufficientFunds)
            } else {
                Ok(())
            },
        }
    }

    /// Carries out a transfer that may go ahead: records it as pending,
    /// takes the amount from the sender, gives it to the receiver, and marks
    /// the record as confirmed.
    pub(crate) fn settle(
        &mut self,
        from: &Identity,
        to: &Identity,
        amount: u64,
        currency: &str,
        now: u64,
        id: String,
    ) -> (settled: String)
        requires
            old(self).wf(),
            transfer_check(old(self)@, from@, to@, amount as nat, currency@) is Ok,
        ensures
            final(self).wf(),
            settled@ == id@,
            final(self)@ == after_transfer(
                old(self)@,
                from@,
                to@,
                amount as nat,
                currency@,
                now,
                id@,
            ),
            old(self)@.wallets.dom().contains((to@, currency@)) ==> final(self).supply(currency@)
                == old(self).supply(currency@),
            !old(self)@.wallets.dom().contains((to@, currency@)) ==> final(self).supply(currency@)
                + amount == old(self).supply(currency@),
            forall|code: Seq<char>|
                code != currency@ ==> final(self).supply(code) == old(self).supply(code),
    {
        let transaction = Transaction {
            id: id.clone(),
            from: from.clone(),
            to: to.clone(),
            amount,
            currency: currency.to_owned(),
            status: TransactionStatus::Pending,
            timestamp: now,
            tx_hash: None,
            metadata: Metadata::new(),
        };
        let ghost pending = transaction@;
        self.transactions.record(transaction);
        proof {
            old(self).wallets.lemma_wf();
        }
        let _ = self.wallets.debit(from, currency, amount, now);
        proof {
            self.wallets.lemma_wf();
        }
        self.wallets.credit(to, currency, amount, now);
        self.transactions.confirm(id.as_str());
        proof {
            let done = transfer_record(from@, to@, amount as nat, currency@, now, id@);
            assert(pending.metadata =~= done.metadata);
            let filed = recorded(old(self)@.history, pending);
            assert(filed.records.insert(id@, done) =~= old(self)@.history.records.insert(id@, done));
            lemma_transfer_consistent(old(self)@, from@, to@, amount as nat, currency@, now, id@);
        }
        id
    }

    /// Moves `amount` from one owner's wallet to another's in this currency,
    /// on record under the given identifier, and returns the identifier.
    ///
    /// Refused, with nothing changed: `SelfTransfer` when the two owners are
    /// the same; else `ZeroAmount` when the amount is zero; else
    /// `OwnerNotFound` or `WalletNotFound` when the sender has no wallet in
    /// the currency; else `InsufficientFunds` when the sender's balance is
    /// below the amount. A receiver without a wallet in the currency does
    /// not stop the transfer: the amount then leaves the ledger.
    pub fn transfer_with_id(
        &mut self,
        from: &Identity,
        to: &Identity,
        amount: u64,
        currency: &str,
        now: u64,
        id: String,
    ) -> (outcome: Result<String, LedgerError>)
        requires
            old(self).wf(),
        ensures
            final(self).wf(),
            match outcome {
                Ok(settled) => transfer_check(old(self)@, from@, to@, amount as nat, currency@) is Ok
                    && settled@ == id@,
                Err(error) => transfer_check(old(self)@, from@, to@, amount as nat, currency@)
                    == Err::<(), LedgerError>(error),
            },
            final(self)@ == after_transfer(
                old(self)@,
                from@,
                to@,
                amount as nat,
                currency@,
                now,
                id@,
            ),
            forall|code: Seq<char>| final(self).supply(code) <= old(self).supply(code),
            outcome is Ok && old(self)@.wallets.dom().contains((to@, currency@)) ==> forall|
                code: Seq<char>,
            |
                final(self).supply(code) == old(self).supply(code),
    {
        match self.check_transfer(from, to, amount, currency) {
            Err(error) => Err(error),
            Ok(()) => Ok(self.settle(from, to, amount, currency, now, id)),
        }
    }
}

} // verus!
