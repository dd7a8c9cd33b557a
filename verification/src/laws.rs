//! What holds of the ledger's operations, whatever state they start from.

use crate::model::{
    after_credit, after_open_wallet, after_transfer, consistent, empty_ledger,
    lemma_credit_consistent, lemma_open_wallet_consistent, lemma_transfer_consistent,
    open_wallet_result, transfer_check, transfer_record, LedgerView,
};
use crate::transactions::ids_of;
use crate::types::{LedgerError, WalletView};
use crate::wallets::WalletKey;
use vstd::prelude::*;

verus! {

/// Once a wallet has been asked for, asking for it again, with whatever
/// address, secret and time, is refused with `AlreadyExists` and leaves the
/// ledger, and so every balance, as it was.
pub proof fn law_second_creation_refused(
    state: LedgerView,
    owner: Seq<u8>,
    currency: Seq<char>,
    first_address: Seq<char>,
    first_key: Seq<char>,
    first_time: u64,
    second_address: Seq<char>,
    second_key: Seq<char>,
    second_time: u64,
)
    ensures
        ({
            let once = after_open_wallet(
                state,
                owner,
                currency,
                first_address,
                first_key,
                first_time,
            );
            &&& once.wallets.dom().contains((owner, currency))
            &&& open_wallet_result(once, owner, currency, second_address, second_time) == Err::<
                WalletView,
                LedgerError,
            >(LedgerError::AlreadyExists)
            &&& after_open_wallet(once, owner, currency, second_address, second_key, second_time)
                == once
        }),
{
}

/// A wallet, once it exists, stays: neither creating a wallet, nor
/// crediting one, nor a transfer takes a wallet away. Creating a wallet
/// changes no wallet that exists, and a credit or a transfer changes of a
/// wallet nothing but its balance and the time of its last activity.
pub proof fn law_wallets_persist(
    state: LedgerView,
    key: WalletKey,
    owner: Seq<u8>,
    other: Seq<u8>,
    currency: Seq<char>,
    address: Seq<char>,
    sealed_key: Seq<char>,
    amount: nat,
    now: u64,
    id: Seq<char>,
)
    requires
        state.wallets.dom().contains(key),
    ensures
        after_open_wallet(state, owner, currency, address, sealed_key, now).wallets.dom().contains(key),
        after_open_wallet(state, owner, currency, address, sealed_key, now).wallets[key]
            == state.wallets[key],
        after_credit(state, owner, currency, amount, now).wallets.dom().contains(key),
        after_transfer(state, owner, other, amount, currency, now, id).wallets.dom().contains(key),
        same_wallet(after_credit(state, owner, currency, amount, now).wallets[key], state.wallets[key]),
        same_wallet(
            after_transfer(state, owner, other, amount, currency, now, id).wallets[key],
            state.wallets[key],
        ),
{
}

/// Whether two states of a wallet differ at most in the balance and in the
/// time of the last activity.
pub open spec fn same_wallet(after: WalletView, before: WalletView) -> bool {
    &&& after.address == before.address
    &&& after.currency == before.currency
    &&& after.created_at == before.created_at
    &&& after.is_active == before.is_active
}

/// A transfer that goes ahead is on record under its identifier as
/// confirmed, and the identifier is the last one filed for the sender and
/// for the receiver. A transfer, refused or not, changes no record under
/// another identifier and takes nothing out of any owner's list.
pub proof fn law_transfer_is_recorded(
    state: LedgerView,
    from: Seq<u8>,
    to: Seq<u8>,
    amount: nat,
    currency: Seq<char>,
    now: u64,
    id: Seq<char>,
    other_id: Seq<char>,
    owner: Seq<u8>,
)
    ensures
        ({
            let after = after_transfer(state, from, to, amount, currency, now, id);
            let went_ahead = transfer_check(state, from, to, amount, currency) is Ok;
            &&& went_ahead ==> {
                &&& after.history.records.dom().contains(id)
                &&& after.history.records[id] == transfer_record(
                    from,
                    to,
                    amount,
                    currency,
                    now,
                    id,
                )
                &&& ids_of(after.history.index, from) == ids_of(state.history.index, from).push(id)
                &&& ids_of(after.history.index, to) == ids_of(state.history.index, to).push(id)
            }
            &&& other_id != id ==> {
                &&& after.history.records.dom().contains(other_id)
                    == state.history.records.dom().contains(other_id)
                &&& after.history.records[other_id] == state.history.records[other_id]
            }
            &&& ids_of(state.history.index, owner).is_prefix_of(ids_of(after.history.index, owner))
            &&& !went_ahead || (owner != from && owner != to) ==> ids_of(after.history.index, owner)
                == ids_of(state.history.index, owner)
        }),
{
}

/// A transfer that goes ahead takes exactly the amount from the sender. If
/// the receiver has a wallet in the currency, that wallet gains exactly the
/// amount, so that the two balances together are what they were. Every
/// other wallet keeps its balance.
pub proof fn law_transfer_moves_amount(
    state: LedgerView,
    from: Seq<u8>,
    to: Seq<u8>,
    amount: nat,
    currency: Seq<char>,
    now: u64,
    id: Seq<char>,
)
    requires
        transfer_check(state, from, to, amount, currency) is Ok,
    ensures
        ({
            let after = after_transfer(state, from, to, amount, currency, now, id);
            let sender = (from, currency);
            let receiver = (to, currency);
            &&& after.wallets.dom().contains(sender)
            &&& after.wallets[sender].balance + amount == state.wallets[sender].balance
            &&& state.wallets.dom().contains(receiver) ==> {
                &&& after.wallets.dom().contains(receiver)
                &&& after.wallets[receiver].balance == state.wallets[receiver].balance + amount
                &&& after.wallets[sender].balance + after.wallets[receiver].balance
                    == state.wallets[sender].balance + state.wallets[receiver].balance
            }
            &&& !state.wallets.dom().contains(receiver) ==> !after.wallets.dom().contains(receiver)
            &&& forall|key: WalletKey|
                key != sender && key != receiver && state.wallets.dom().contains(key)
                    ==> #[trigger] after.wallets[key] == state.wallets[key]
        }),
{
}

/// A transfer from an owner to the same owner is refused with
/// `SelfTransfer`, whatever the amount, the currency and the balances, and
/// changes nothing.
pub proof fn law_self_transfer_refused(
    state: LedgerView,
    owner: Seq<u8>,
    amount: nat,
    currency: Seq<char>,
    now: u64,
    id: Seq<char>,
)
    ensures
        transfer_check(state, owner, owner, amount, currency) == Err::<(), LedgerError>(
            LedgerError::SelfTransfer,
        ),
        after_transfer(state, owner, owner, amount, currency, now, id) == state,
{
}

/// A transfer of nothing between two owners is refused with `ZeroAmount`
/// and changes nothing: no transaction is put on record.
pub proof fn law_zero_transfer_refused(
    state: LedgerView,
    from: Seq<u8>,
    to: Seq<u8>,
    currency: Seq<char>,
    now: u64,
    id: Seq<char>,
)
    requires
        from != to,
    ensures
        transfer_check(state, from, to, 0, currency) == Err::<(), LedgerError>(
            LedgerError::ZeroAmount,
        ),
        after_transfer(state, from, to, 0, currency, now, id) == state,
{
}

/// A transfer between two owners of more than the sender's wallet holds is
/// refused with `InsufficientFunds` and changes nothing, so both balances
/// stay as they were.
pub proof fn law_overdraft_refused(
    state: LedgerView,
    from: Seq<u8>,
    to: Seq<u8>,
    amount: nat,
    currency: Seq<char>,
    now: u64,
    id: Seq<char>,
)
    requires
        from != to,
        state.wallets.dom().contains((from, currency)),
        amount > state.wallets[(from, currency)].balance,
    ensures
        transfer_check(state, from, to, amount, currency) == Err::<(), LedgerError>(
            LedgerError::InsufficientFunds,
        ),
        after_transfer(state, from, to, amount, currency, now, id) == state,
{
}

/// One request that can change the ledger.
pub enum Step {
    Open { owner: Seq<u8>, currency: Seq<char>, address: Seq<char>, sealed_key: Seq<char>, now: u64 },
    Credit { owner: Seq<u8>, currency: Seq<char>, amount: nat, now: u64 },
    Transfer {
        from: Seq<u8>,
        to: Seq<u8>,
        amount: nat,
        currency: Seq<char>,
        now: u64,
        id: Seq<char>,
    },
}

/// The ledger after one request.
pub open spec fn after_step(state: LedgerView, step: Step) -> LedgerView {
    match step {
        Step::Open { owner, currency, address, sealed_key, now } => after_open_wallet(
            state,
            owner,
            currency,
            address,
            sealed_key,
            now,
        ),
        Step::Credit { owner, currency, amount, now } => after_credit(
            state,
            owner,
            currency,
            amount,
            now,
        ),
        Step::Transfer { from, to, amount, currency, now, id } => after_transfer(
            state,
            from,
            to,
            amount,
            currency,
            now,
            id,
        ),
    }
}

/// The ledger after a run of requests, served one after the other.
pub open spec fn after_steps(state: LedgerView, steps: Seq<Step>) -> LedgerView
    decreases steps.len(),
{
    if steps.len() == 0 {
        state
    } else {
        after_step(after_steps(state, steps.drop_last()), steps.last())
    }
}

/// Every run of requests keeps a consistent ledger consistent; so the
/// ledger is consistent after every run that starts with nothing. In
/// particular no transaction is ever left on record as pending.
pub proof fn law_every_run_is_consistent(state: LedgerView, steps: Seq<Step>)
    requires
        consistent(state),
    ensures
        consistent(after_steps(state, steps)),
        consistent(after_steps(empty_ledger(), steps)),
    decreases steps.len(),
{
    if steps.len() > 0 {
        let front = steps.drop_last();
        law_every_run_is_consistent(state, front);
        lemma_step_consistent(after_steps(state, front), steps.last());
        lemma_step_consistent(after_steps(empty_ledger(), front), steps.last());
    }
}

proof fn lemma_step_consistent(state: LedgerView, step: Step)
    requires
        consistent(state),
    ensures
        consistent(after_step(state, step)),
{
    match step {
        Step::Open { owner, currency, address, sealed_key, now } => {
            lemma_open_wallet_consistent(state, owner, currency, address, sealed_key, now);
        },
        Step::Credit { owner, currency, amount, now } => {
            lemma_credit_consistent(state, owner, currency, amount, now);
        },
        Step::Transfer { from, to, amount, currency, now, id } => {
            lemma_transfer_consistent(state, from, to, amount, currency, now, id);
        },
    }
}

/// A wallet outlives every run of requests, and keeps through it its
/// address, its currency, the time of its creation and its active flag.
pub proof fn law_wallet_outlives_every_run(state: LedgerView, steps: Seq<Step>, key: WalletKey)
    requires
        state.wallets.dom().contains(key),
    ensures
        after_steps(state, steps).wallets.dom().contains(key),
        same_wallet(after_steps(state, steps).wallets[key], state.wallets[key]),
    decreases steps.len(),
{
    if steps.len() > 0 {
        law_wallet_outlives_every_run(state, steps.drop_last(), key);
    }
}

/// Once a wallet has been asked for, then whatever run of requests has been
/// served since, asking for it again is refused with `AlreadyExists` and
/// leaves the ledger, and so every balance, as it was.
pub proof fn law_creation_refused_ever_after(
    state: LedgerView,
    owner: Seq<u8>,
    currency: Seq<char>,
    first_address: Seq<char>,
    first_key: Seq<char>,
    first_time: u64,
    steps: Seq<Step>,
    second_address: Seq<char>,
    second_key: Seq<char>,
    second_time: u64,
)
    ensures
        ({
            let once = after_open_wallet(
                state,
                owner,
                currency,
                first_address,
                first_key,
                first_time,
            );
            let later = after_steps(once, steps);
            &&& open_wallet_result(later, owner, currency, second_address, second_time) == Err::<
                WalletView,
                LedgerError,
            >(LedgerError::AlreadyExists)
            &&& after_open_wallet(later, owner, currency, second_address, second_key, second_time)
                == later
        }),
{
    let once = after_open_wallet(state, owner, currency, first_address, first_key, first_time);
    law_wallet_outlives_every_run(once, steps, (owner, currency));
}

} // verus!
