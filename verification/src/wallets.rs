//! The wallet registry: one balance record per owner and currency.

use crate::assoc::{lemma_pairing_at, lemma_pairing_push, lemma_pairing_update, pairing};
use crate::identity::Identity;
use crate::text::same_text;
use crate::types::{LedgerError, Wallet, WalletView};
use vstd::prelude::*;

verus! {

/// What identifies a wallet: its owner and its currency code.
pub type WalletKey = (Seq<u8>, Seq<char>);

/// A wallet as it is when it is created: empty, active, stamped with the
/// time of its creation.
pub open spec fn fresh_wallet(address: Seq<char>, currency: Seq<char>, now: u64) -> WalletView {
    WalletView {
        address,
        balance: 0,
        currency,
        created_at: now,
        last_activity: now,
        is_active: true,
    }
}

/// A wallet after `amount` has left it at time `now`.
pub open spec fn debited(wallet: WalletView, amount: nat, now: u64) -> WalletView {
    WalletView { balance: (wallet.balance - amount) as nat, last_activity: now, ..wallet }
}

/// A wallet after `amount` has reached it at time `now`.
pub open spec fn credited(wallet: WalletView, amount: nat, now: u64) -> WalletView {
    WalletView { balance: wallet.balance + amount, last_activity: now, ..wallet }
}

/// Whether the owner has a wallet in any currency.
pub open spec fn owns_any(wallets: Map<WalletKey, WalletView>, owner: Seq<u8>) -> bool {
    exists|currency: Seq<char>| wallets.dom().contains((owner, currency))
}

/// What a lookup of the owner's wallet in one currency gives: the wallet, or
/// the reason why there is none.
pub open spec fn lookup(wallets: Map<WalletKey, WalletView>, owner: Seq<u8>, currency: Seq<char>) -> Result<
    WalletView,
    LedgerError,
> {
    if wallets.dom().contains((owner, currency)) {
        Ok(wallets[(owner, currency)])
    } else if owns_any(wallets, owner) {
        Err(LedgerError::WalletNotFound)
    } else {
        Err(LedgerError::OwnerNotFound)
    }
}

/// The owner's wallets, oldest first.
pub open spec fn owned_wallets(
    order: Seq<WalletKey>,
    wallets: Map<WalletKey, WalletView>,
    owner: Seq<u8>,
) -> Seq<WalletView> {
    order.filter(|key: WalletKey| key.0 == owner).map_values(|key: WalletKey| wallets[key])
}

/// The views of a sequence of wallets.
pub open spec fn wallet_views(wallets: Seq<Wallet>) -> Seq<WalletView> {
    wallets.map_values(|wallet: Wallet| wallet@)
}

/// The sum of the balances that a sequence of wallets holds in one currency.
pub open spec fn supply_of(wallets: Seq<WalletView>, currency: Seq<char>) -> nat
    decreases wallets.len(),
{
    if wallets.len() == 0 {
        0
    } else {
        supply_of(wallets.drop_last(), currency) + if wallets.last().currency == currency {
            wallets.last().balance
        } else {
            0
        }
    }
}

proof fn lemma_supply_push(wallets: Seq<WalletView>, wallet: WalletView, currency: Seq<char>)
    ensures
        supply_of(wallets.push(wallet), currency) == supply_of(wallets, currency) + if wallet.currency
            == currency {
            wallet.balance
        } else {
            0
        },
{
    assert(wallets.push(wallet).drop_last() =~= wallets);
}

proof fn lemma_supply_update(wallets: Seq<WalletView>, i: int, wallet: WalletView, currency: Seq<char>)
    requires
        0 <= i < wallets.len(),
        wallet.currency == wallets[i].currency,
    ensures
        wallet.currency != currency ==> supply_of(wallets.update(i, wallet), currency) == supply_of(
            wallets,
            currency,
        ),
        wallet.currency == currency ==> supply_of(wallets.update(i, wallet), currency)
            + wallets[i].balance == supply_of(wallets, currency) + wallet.balance,
    decreases wallets.len(),
{
    if i == wallets.len() - 1 {
        assert(wallets.update(i, wallet).drop_last() =~= wallets.drop_last());
    } else {
        lemma_supply_update(wallets.drop_last(), i, wallet, currency);
        assert(wallets.update(i, wallet).drop_last() =~= wallets.drop_last().update(i, wallet));
    }
}

proof fn lemma_supply_covers(wallets: Seq<WalletView>, i: int)
    requires
        0 <= i < wallets.len(),
    ensures
        wallets[i].balance <= supply_of(wallets, wallets[i].currency),
    decreases wallets.len(),
{
    if i < wallets.len() - 1 {
        lemma_supply_covers(wallets.drop_last(), i);
    }
}

proof fn lemma_supply_prefix(wallets: Seq<WalletView>, n: int, currency: Seq<char>)
    requires
        0 <= n <= wallets.len(),
    ensures
        supply_of(wallets.take(n), currency) <= supply_of(wallets, currency),
    decreases wallets.len() - n,
{
    if n == wallets.len() {
        assert(wallets.take(n) =~= wallets);
    } else {
        lemma_supply_prefix(wallets, n + 1, currency);
        assert(wallets.take(n + 1).drop_last() =~= wallets.take(n));
    }
}

struct WalletSlot {
    owner: Identity,
    wallet: Wallet,
}

/// The wallets of all owners. An owner has at most one wallet per currency,
/// and the balances held in one currency never add up to more than a `u64`
/// can hold.
///
/// Its view is the map from owner and currency to the wallet.
pub struct WalletRegistry {
    slots: Vec<WalletSlot>,
}

impl View for WalletRegistry {
    type V = Map<WalletKey, WalletView>;

    closed spec fn view(&self) -> Map<WalletKey, WalletView> {
        pairing(self.order(), self.listing())
    }
}

impl WalletRegistry {
    /// The keys of the wallets, oldest wallet first.
    pub closed spec fn order(&self) -> Seq<WalletKey> {
        Seq::new(
            self.slots@.len(),
            |i: int| (self.slots@[i].owner@, self.slots@[i].wallet.currency@),
        )
    }

    spec fn listing(&self) -> Seq<WalletView> {
        Seq::new(self.slots@.len(), |i: int| self.slots@[i].wallet@)
    }

    /// The sum of all balances held in one currency.
    pub closed spec fn supply(&self, currency: Seq<char>) -> nat {
        supply_of(self.listing(), currency)
    }

    /// No two wallets share owner and currency, and the supply of every
    /// currency fits in a `u64`.
    pub closed spec fn wf(&self) -> bool {
        &&& self.order().no_duplicates()
        &&& forall|currency: Seq<char>| #[trigger] supply_of(self.listing(), currency) <= u64::MAX
    }

    /// What well-formedness means for the view: the wallets are those listed
    /// in `order`, each once; each is filed under its own currency; and no
    /// balance exceeds the supply of its currency, which fits in a `u64`.
    pub proof fn lemma_wf(&self)
        requires
            self.wf(),
        ensures
            self.order().no_duplicates(),
            self@.dom().finite(),
            forall|key: WalletKey| self@.dom().contains(key) <==> self.order().contains(key),
            forall|key: WalletKey| #[trigger]
                self@.dom().contains(key) ==> self@[key].currency == key.1 && self@[key].balance
                    <= self.supply(key.1),
            forall|currency: Seq<char>| #[trigger] self.supply(currency) <= u64::MAX,
    {
        assert forall|key: WalletKey| #[trigger]
            self@.dom().contains(key) implies self@[key].currency == key.1 && self@[key].balance
            <= self.supply(key.1) by {
            lemma_supply_covers(self.listing(), self.order().index_of(key));
        }
        vstd::seq_lib::seq_to_set_is_finite(self.order());
    }

    /// A registry without wallets.
    pub fn new() -> (registry: WalletRegistry)
        ensures
            registry.wf(),
            registry@ == Map::<WalletKey, WalletView>::empty(),
            registry.order() == Seq::<WalletKey>::empty(),
            forall|currency: Seq<char>| registry.supply(currency) == 0,
    {
        WalletRegistry { slots: Vec::new() }
    }

    fn position(&self, owner: &Identity, currency: &str) -> (found: Option<usize>)
        ensures
            match found {
                Some(i) => i < self.slots@.len() && self.order()[i as int] == (owner@, currency@),
                None => !self.order().contains((owner@, currency@)),
            },
    {
        let mut i: usize = 0;
        while i < self.slots.len()
            invariant
                0 <= i <= self.slots@.len(),
                forall|j: int| 0 <= j < i ==> self.order()[j] != (owner@, currency@),
            decreases self.slots@.len() - i,
        {
            if self.slots[i].owner.same(owner) && same_text(
                self.slots[i].wallet.currency.as_str(),
                currency,
            ) {
                return Some(i);
            }
            i += 1;
        }
        None
    }

    /// Whether the owner has a wallet in this currency.
    pub fn contains(&self, owner: &Identity, currency: &str) -> (present: bool)
        ensures
            present == self@.dom().contains((owner@, currency@)),
    {
        self.position(owner, currency).is_some()
    }

    /// Whether the owner has a wallet in any currency.
    pub fn has_owner(&self, owner: &Identity) -> (present: bool)
        ensures
            present == owns_any(self@, owner@),
    {
        let mut i: usize = 0;
        while i < self.slots.len()
            invariant
                0 <= i <= self.slots@.len(),
                forall|j: int| 0 <= j < i ==> self.order()[j].0 != owner@,
            decreases self.slots@.len() - i,
        {
            if self.slots[i].owner.same(owner) {
                proof {
                    let key = self.order()[i as int];
                    assert(self@.dom().contains((owner@, key.1)));
                }
                return true;
            }
            i += 1;
        }
        proof {
            assert forall|currency: Seq<char>| !self@.dom().contains((owner@, currency)) by {
                if self.order().contains((owner@, currency)) {
                    let j = self.order().index_of((owner@, currency));
                    assert(self.order()[j].0 == owner@);
                }
            }
        }
        false
    }

    /// Creates the owner's wallet in this currency, empty and active, and
    /// returns a copy of it. Refused when the owner already has one; the
    /// registry is then left as it was.
    pub fn create(&mut self, owner: &Identity, currency: &str, address: String, now: u64) -> (created:
        Result<Wallet, LedgerError>)
        requires
            old(self).wf(),
        ensures
            final(self).wf(),
            old(self)@.dom().contains((owner@, currency@)) ==> created == Err::<Wallet, LedgerError>(
                LedgerError::AlreadyExists,
            ) && *final(self) == *old(self),
            !old(self)@.dom().contains((owner@, currency@)) ==> (created matches Ok(wallet) && wallet@
                == fresh_wallet(address@, currency@, now)) && final(self)@ == old(self)@.insert(
                (owner@, currency@),
                fresh_wallet(address@, currency@, now),
            ) && final(self).order() == old(self).order().push((owner@, currency@)),
            forall|code: Seq<char>| final(self).supply(code) == old(self).supply(code),
    {
        if self.position(owner, currency).is_some() {
            return Err(LedgerError::AlreadyExists);
        }
        let wallet = Wallet {
            address,
            balance: 0,
            currency: currency.to_owned(),
            created_at: now,
            last_activity: now,
            is_active: true,
        };
        let copy = wallet.clone();
        let ghost key = (owner@, currency@);
        proof {
            lemma_pairing_push(self.order(), self.listing(), key, wallet@);
        }
        self.slots.push(WalletSlot { owner: owner.clone(), wallet });
        proof {
            assert(self.order() =~= old(self).order().push(key));
            assert(self.listing() =~= old(self).listing().push(copy@));
            assert forall|code: Seq<char>| supply_of(self.listing(), code) == supply_of(
                old(self).listing(),
                code,
            ) by {
                lemma_supply_push(old(self).listing(), copy@, code);
            }
        }
        Ok(copy)
    }

    /// A copy of the owner's wallet in this currency, or the reason why
    /// there is none: the owner has no wallet at all, or none in this
    /// currency.
    pub fn get(&self, owner: &Identity, currency: &str) -> (found: Result<Wallet, LedgerError>)
        requires
            self.wf(),
        ensures
            match found {
                Ok(wallet) => lookup(self@, owner@, currency@) == Ok::<WalletView, LedgerError>(
                    wallet@,
                ),
                Err(error) => lookup(self@, owner@, currency@) == Err::<WalletView, LedgerError>(
                    error,
                ),
            },
    {
        match self.position(owner, currency) {
            Some(i) => {
                proof {
                    lemma_pairing_at(self.order(), self.listing(), i as int);
                }
                Ok(self.slots[i].wallet.clone())
            },
            None => {
                if self.has_owner(owner) {
                    Err(LedgerError::WalletNotFound)
                } else {
                    Err(LedgerError::OwnerNotFound)
                }
            },
        }
    }

    /// Copies of the owner's wallets, oldest first. Empty when the owner has
    /// none.
    pub fn list(&self, owner: &Identity) -> (wallets: Vec<Wallet>)
        requires
            self.wf(),
        ensures
            wallet_views(wallets@) == owned_wallets(self.order(), self@, owner@),
    {
        let ghost mine = |key: WalletKey| key.0 == owner@;
        let ghost held = |key: WalletKey| self@[key];
        let mut wallets: Vec<Wallet> = Vec::new();
        let mut i: usize = 0;
        proof {
            assert(Seq::<WalletKey>::empty().filter(mine) =~= Seq::<WalletKey>::empty()) by {
                reveal(Seq::filter);
            }
        }
        while i < self.slots.len()
            invariant
                self.wf(),
                0 <= i <= self.slots@.len(),
                mine == |key: WalletKey| key.0 == owner@,
                held == |key: WalletKey| self@[key],
                wallet_views(wallets@) == self.order().take(i as int).filter(mine).map_values(held),
            decreases self.slots@.len() - i,
        {
            proof {
                let prefix = self.order().take(i as int);
                let key = self.order()[i as int];
                assert(self.order().take(i + 1) =~= prefix.push(key));
                Seq::lemma_filter_push(prefix, key, mine);
                lemma_pairing_at(self.order(), self.listing(), i as int);
            }
            if self.slots[i].owner.same(owner) {
                let ghost before = wallets@;
                wallets.push(self.slots[i].wallet.clone());
                assert(wallet_views(wallets@) =~= wallet_views(before).push(
                    held(self.order()[i as int]),
                ));
            }
            i += 1;
        }
        proof {
            assert(self.order().take(i as int) =~= self.order());
        }
        wallets
    }

    /// The sum of all balances held in this currency.
    pub fn total_supply(&self, currency: &str) -> (total: u64)
        requires
            self.wf(),
        ensures
            total == self.supply(currency@),
    {
        let mut total: u64 = 0;
        let mut i: usize = 0;
        while i < self.slots.len()
            invariant
                self.wf(),
                0 <= i <= self.slots@.len(),
                total == supply_of(self.listing().take(i as int), currency@),
            decreases self.slots@.len() - i,
        {
            proof {
                lemma_supply_prefix(self.listing(), i + 1, currency@);
                assert(self.listing().take(i + 1).drop_last() =~= self.listing().take(i as int));
            }
            if same_text(self.slots[i].wallet.currency.as_str(), currency) {
                total = total + self.slots[i].wallet.balance;
            }
            i += 1;
        }
        proof {
            assert(self.listing().take(i as int) =~= self.listing());
        }
        total
    }

    /// Takes `amount` out of the owner's wallet in this currency and stamps
    /// the wallet with `now`. Refused, with the registry left as it was,
    /// when the balance is below the amount. The wallet must exist.
    pub fn debit(&mut self, owner: &Identity, currency: &str, amount: u64, now: u64) -> (done: Result<
        (),
        LedgerError,
    >)
        requires
            old(self).wf(),
            old(self)@.dom().contains((owner@, currency@)),
        ensures
            final(self).wf(),
            final(self).order() == old(self).order(),
            old(self)@[(owner@, currency@)].balance < amount ==> done == Err::<(), LedgerError>(
                LedgerError::InsufficientFunds,
            ) && *final(self) == *old(self),
            old(self)@[(owner@, currency@)].balance >= amount ==> done is Ok && final(self)@ == old(
                self,
            )@.insert(
                (owner@, currency@),
                debited(old(self)@[(owner@, currency@)], amount as nat, now),
            ) && final(self).supply(currency@) + amount == old(self).supply(currency@) && forall|
                code: Seq<char>,
            |
                code != currency@ ==> final(self).supply(code) == old(self).supply(code),
    {
        let found = self.position(owner, currency);
        let i = found.unwrap();
        proof {
            lemma_pairing_at(self.order(), self.listing(), i as int);
        }
        if self.slots[i].wallet.balance < amount {
            return Err(LedgerError::InsufficientFunds);
        }
        let balance = self.slots[i].wallet.balance - amount;
        self.slots[i].wallet.balance = balance;
        self.slots[i].wallet.last_activity = now;
        proof {
            let after = debited(old(self)@[(owner@, currency@)], amount as nat, now);
            assert(self.order() =~= old(self).order());
            assert(self.listing() =~= old(self).listing().update(i as int, after));
            lemma_pairing_update(old(self).order(), old(self).listing(), i as int, after);
            assert forall|code: Seq<char>| #[trigger]
                supply_of(self.listing(), code) <= u64::MAX && (code != currency@ ==> supply_of(
                    self.listing(),
                    code,
                ) == supply_of(old(self).listing(), code)) by {
                lemma_supply_update(old(self).listing(), i as int, after, code);
            }
            lemma_supply_update(old(self).listing(), i as int, after, currency@);
        }
        Ok(())
    }

    /// Adds `amount` to the owner's wallet in this currency and stamps the
    /// wallet with `now`. When the owner has no such wallet nothing changes
    /// and the result is `false`.
    pub fn credit(&mut self, owner: &Identity, currency: &str, amount: u64, now: u64) -> (applied:
        bool)
        requires
            old(self).wf(),
            old(self)@.dom().contains((owner@, currency@)) ==> old(self).supply(currency@) + amount
                <= u64::MAX,
        ensures
            final(self).wf(),
            final(self).order() == old(self).order(),
            applied == old(self)@.dom().contains((owner@, currency@)),
            !applied ==> *final(self) == *old(self),
            applied ==> final(self)@ == old(self)@.insert(
                (owner@, currency@),
                credited(old(self)@[(owner@, currency@)], amount as nat, now),
            ) && final(self).supply(currency@) == old(self).supply(currency@) + amount && forall|
                code: Seq<char>,
            |
                code != currency@ ==> final(self).supply(code) == old(self).supply(code),
    {
        match self.position(owner, currency) {
            None => false,
            Some(i) => {
                proof {
                    lemma_pairing_at(self.order(), self.listing(), i as int);
                    lemma_supply_covers(self.listing(), i as int);
                }
                let balance = self.slots[i].wallet.balance + amount;
                self.slots[i].wallet.balance = balance;
                self.slots[i].wallet.last_activity = now;
                proof {
                    let after = credited(old(self)@[(owner@, currency@)], amount as nat, now);
                    assert(self.order() =~= old(self).order());
                    assert(self.listing() =~= old(self).listing().update(i as int, after));
                    lemma_pairing_update(old(self).order(), old(self).listing(), i as int, after);
                    assert forall|code: Seq<char>| #[trigger]
                        supply_of(self.listing(), code) <= u64::MAX && (code != currency@
                            ==> supply_of(self.listing(), code) == supply_of(
                            old(self).listing(),
                            code,
                        )) by {
                        lemma_supply_update(old(self).listing(), i as int, after, code);
                    }
                    lemma_supply_update(old(self).listing(), i as int, after, currency@);
                }
                true
            },
        }
    }
}

} // verus!
