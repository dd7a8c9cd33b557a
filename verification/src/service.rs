//! The operations as they are asked for from outside: currency codes are
//! taken as written and filed in upper case, addresses and transaction
//! identifiers are derived here.

use crate::address::{account_id, address_text, generate_address};
use crate::currency::{normalize_currency, uppercased};
use crate::digest::{is_hex_digit, DIGEST_BYTES};
use crate::identity::Identity;
use crate::ledger::Ledger;
use crate::model::{
    after_open_wallet, after_transfer, balance_answer, open_wallet_result, transfer_check,
    wallet_info_answer,
};
use crate::txid::{generate_transaction_id, transaction_id};
use crate::types::{
    BalanceResponse, BalanceResponseView, CreateWalletRequest, LedgerError, TransferRequest,
    Wallet, WalletInfo, WalletInfoView, WalletView,
};
use vstd::prelude::*;

verus! {

/// The address of the wallet that a request asks for, as the service with
/// the given identity derives it.
pub open spec fn requested_address(request: CreateWalletRequest, service: Seq<u8>) -> Seq<char> {
    address_text(uppercased(request.currency@), account_id(service, request.user_principal@))
}

/// The identifier of the transfer that a request asks for at time `now`.
pub open spec fn requested_id(request: TransferRequest, now: u64) -> Seq<char> {
    transaction_id(request.from@, request.to@, request.amount, now)
}

impl Ledger {
    /// Creates the wallet that the request asks for: for the request's
    /// owner, in the request's currency in upper case, at the address that
    /// the service derives for the two. The sealed secret is filed in the
    /// owner's key record as it is. Refused with `AlreadyExists`, and
    /// nothing changed, when the owner already has a wallet in the currency.
    pub fn create_wallet(
        &mut self,
        request: CreateWalletRequest,
        service: &Identity,
        sealed_key: String,
        now: u64,
    ) -> (created: Result<Wallet, LedgerError>)
        requires
            old(self).wf(),
        ensures
            final(self).wf(),
            final(self)@ == after_open_wallet(
                old(self)@,
                request.user_principal@,
                uppercased(request.currency@),
                requested_address(request, service@),
                sealed_key@,
                now,
            ),
            match created {
                Ok(wallet) => open_wallet_result(
                    old(self)@,
                    request.user_principal@,
                    uppercased(request.currency@),
                    requested_address(request, service@),
                    now,
                ) == Ok::<WalletView, LedgerError>(wallet@),
                Err(error) => open_wallet_result(
                    old(self)@,
                    request.user_principal@,
                    uppercased(request.currency@),
                    requested_address(request, service@),
                    now,
                ) == Err::<WalletView, LedgerError>(error),
            },
            forall|code: Seq<char>| final(self).supply(code) == old(self).supply(code),
    {
        let currency = normalize_currency(request.currency.as_str());
        if self.has_wallet(&request.user_principal, currency.as_str()) {
            return Err(LedgerError::AlreadyExists);
        }
        let address = generate_address(service, &request.user_principal, currency.as_str());
        self.open_wallet(&request.user_principal, currency.as_str(), address, sealed_key, now)
    }

    /// Carries out the transfer that the request asks for, in the request's
    /// currency in upper case, and returns the identifier under which it is
    /// on record: 64 lower-case hexadecimal digits, derived from sender,
    /// receiver, amount and `now`. The memo is not kept.
    ///
    /// Refused, with nothing changed: `SelfTransfer` when the two owners are
    /// the same; else `ZeroAmount` when the amount is zero; else
    /// `OwnerNotFound` or `WalletNotFound` when the sender has no wallet in
    /// the currency; else `InsufficientFunds` when the sender's balance is
    /// below the amount.
    pub fn transfer(&mut self, request: TransferRequest, now: u64) -> (outcome: Result<
        String,
        LedgerError,
    >)
        requires
            old(self).wf(),
        ensures
            final(self).wf(),
            match outcome {
                Ok(id) => transfer_check(
                    old(self)@,
                    request.from@,
                    request.to@,
                    request.amount as nat,
                    uppercased(request.currency@),
                ) is Ok && id@ == requested_id(request, now) && id@.len() == 2 * DIGEST_BYTES
                    && forall|i: int| 0 <= i < id@.len() ==> is_hex_digit(#[trigger] id@[i]),
                Err(error) => transfer_check(
                    old(self)@,
                    request.from@,
                    request.to@,
                    request.amount as nat,
                    uppercased(request.currency@),
                ) == Err::<(), LedgerError>(error),
            },
            final(self)@ == after_transfer(
                old(self)@,
                request.from@,
                request.to@,
                request.amount as nat,
                uppercased(request.currency@),
                now,
                requested_id(request, now),
            ),
            forall|code: Seq<char>| final(self).supply(code) <= old(self).supply(code),
    {
        let currency = normalize_currency(request.currency.as_str());
        match self.check_transfer(&request.from, &request.to, request.amount, currency.as_str()) {
            Err(error) => Err(error),
            Ok(()) => {
                let id = generate_transaction_id(&request.from, &request.to, request.amount, now);
                Ok(
                    self.settle(
                        &request.from,
                        &request.to,
                        request.amount,
                        currency.as_str(),
                        now,
                        id,
                    ),
                )
            },
        }
    }

    /// The owner's balance in the currency, whose code is read in upper
    /// case, or the reason why the owner has no such wallet.
    pub fn balance(&self, owner: &Identity, currency: &str) -> (answer: Result<
        BalanceResponse,
        LedgerError,
    >)
        requires
            self.wf(),
        ensures
            match answer {
                Ok(response) => balance_answer(self@, owner@, uppercased(currency@)) == Ok::<
                    BalanceResponseView,
                    LedgerError,
                >(response@),
                Err(error) => balance_answer(self@, owner@, uppercased(currency@)) == Err::<
                    BalanceResponseView,
                    LedgerError,
                >(error),
            },
    {
        let currency = normalize_currency(currency);
        self.balance_of(owner, currency.as_str())
    }

    /// The owner's wallet in the currency, whose code is read in upper case,
    /// with the number of transactions filed for the owner, or the reason
    /// why the owner has no such wallet.
    pub fn get_wallet_info(&self, owner: &Identity, currency: &str) -> (answer: Result<
        WalletInfo,
        LedgerError,
    >)
        requires
            self.wf(),
        ensures
            match answer {
                Ok(info) => wallet_info_answer(self@, owner@, uppercased(currency@)) == Ok::<
                    WalletInfoView,
                    LedgerError,
                >(info@),
                Err(error) => wallet_info_answer(self@, owner@, uppercased(currency@)) == Err::<
                    WalletInfoView,
                    LedgerError,
                >(error),
            },
    {
        let currency = normalize_currency(currency);
        self.wallet_info_of(owner, currency.as_str())
    }
}

} // verus!
