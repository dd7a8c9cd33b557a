//! The transaction ledger: the record of every transfer, and for each owner
//! the identifiers of the transfers the owner took part in.

use crate::assoc::{lemma_pairing_at, lemma_pairing_push, lemma_pairing_update, pairing};
use crate::identity::Identity;
use crate::text::same_text;
use crate::types::{LedgerError, Transaction, TransactionStatus, TransactionView};
use vstd::prelude::*;

verus! {

/// What the transaction ledger holds: the records by identifier, and for
/// each owner the identifiers of the owner's transfers in the order in which
/// they were recorded.
pub struct HistoryView {
    pub records: Map<Seq<char>, TransactionView>,
    pub index: Map<Seq<u8>, Seq<Seq<char>>>,
}

/// The identifiers filed for an owner, oldest first; none for an owner the
/// index does not know.
pub open spec fn ids_of(index: Map<Seq<u8>, Seq<Seq<char>>>, owner: Seq<u8>) -> Seq<Seq<char>> {
    if index.dom().contains(owner) {
        index[owner]
    } else {
        Seq::empty()
    }
}

/// The index after one more identifier has been filed for an owner.
pub open spec fn appended(index: Map<Seq<u8>, Seq<Seq<char>>>, owner: Seq<u8>, id: Seq<char>) -> Map<
    Seq<u8>,
    Seq<Seq<char>>,
> {
    index.insert(owner, ids_of(index, owner).push(id))
}

/// The ledger after a transaction has been recorded: the record stands under
/// its identifier, in place of any earlier record with the same identifier,
/// and the identifier is filed for the sender and then for the receiver.
pub open spec fn recorded(history: HistoryView, transaction: TransactionView) -> HistoryView {
    HistoryView {
        records: history.records.insert(transaction.id, transaction),
        index: appended(
            appended(history.index, transaction.from, transaction.id),
            transaction.to,
            transaction.id,
        ),
    }
}

/// The ledger after one transaction has been confirmed. A ledger that does
/// not hold the transaction stays as it is, and so does one that holds it
/// as confirmed.
pub open spec fn confirmed(history: HistoryView, id: Seq<char>) -> HistoryView {
    if history.records.dom().contains(id) {
        HistoryView {
            records: history.records.insert(
                id,
                TransactionView { status: TransactionStatus::Confirmed, ..history.records[id] },
            ),
            index: history.index,
        }
    } else {
        history
    }
}

/// The records that a list of identifiers refers to, in the order of the
/// list. Identifiers without a record are passed over.
pub open spec fn resolved(ids: Seq<Seq<char>>, records: Map<Seq<char>, TransactionView>) -> Seq<
    TransactionView,
> {
    ids.filter(|id: Seq<char>| records.dom().contains(id)).map_values(|id: Seq<char>| records[id])
}

/// How many entries at the head of `sorted` are at least as recent as
/// `timestamp`.
pub open spec fn rank(sorted: Seq<TransactionView>, timestamp: u64) -> int
    decreases sorted.len(),
{
    if sorted.len() == 0 || sorted.first().timestamp < timestamp {
        0
    } else {
        1 + rank(sorted.drop_first(), timestamp)
    }
}

/// `sorted` with one more transaction, placed behind every entry that is at
/// least as recent.
pub open spec fn placed(sorted: Seq<TransactionView>, transaction: TransactionView) -> Seq<
    TransactionView,
> {
    sorted.insert(rank(sorted, transaction.timestamp), transaction)
}

/// The transactions of `list` from the most recent to the oldest. Entries
/// with the same timestamp keep the order they have in `list`.
pub open spec fn newest_first(list: Seq<TransactionView>) -> Seq<TransactionView>
    decreases list.len(),
{
    if list.len() == 0 {
        list
    } else {
        placed(newest_first(list.drop_last()), list.last())
    }
}

/// Whether no entry is followed by a more recent one.
pub open spec fn is_newest_first(list: Seq<TransactionView>) -> bool {
    forall|i: int, j: int| 0 <= i < j < list.len() ==> list[i].timestamp >= list[j].timestamp
}

/// The views of a sequence of transactions.
pub open spec fn transaction_views(list: Seq<Transaction>) -> Seq<TransactionView> {
    list.map_values(|transaction: Transaction| transaction@)
}

proof fn lemma_rank(sorted: Seq<TransactionView>, timestamp: u64)
    ensures
        0 <= rank(sorted, timestamp) <= sorted.len(),
        forall|i: int| 0 <= i < rank(sorted, timestamp) ==> sorted[i].timestamp >= timestamp,
        rank(sorted, timestamp) < sorted.len() ==> sorted[rank(sorted, timestamp)].timestamp
            < timestamp,
    decreases sorted.len(),
{
    if sorted.len() == 0 || sorted.first().timestamp < timestamp {
    } else {
        let rest = sorted.drop_first();
        lemma_rank(rest, timestamp);
        assert forall|i: int| 0 <= i < rank(sorted, timestamp) implies sorted[i].timestamp
            >= timestamp by {
            if i > 0 {
                assert(sorted[i] == rest[i - 1]);
            }
        }
    }
}

proof fn lemma_rank_found(sorted: Seq<TransactionView>, timestamp: u64, p: int)
    requires
        0 <= p <= sorted.len(),
        forall|i: int| 0 <= i < p ==> sorted[i].timestamp >= timestamp,
        p < sorted.len() ==> sorted[p].timestamp < timestamp,
    ensures
        rank(sorted, timestamp) == p,
    decreases p,
{
    if p > 0 {
        lemma_rank_found(sorted.drop_first(), timestamp, p - 1);
    }
}

proof fn lemma_placed(sorted: Seq<TransactionView>, transaction: TransactionView)
    requires
        is_newest_first(sorted),
    ensures
        is_newest_first(placed(sorted, transaction)),
        placed(sorted, transaction).len() == sorted.len() + 1,
        placed(sorted, transaction).to_multiset() == sorted.to_multiset().insert(transaction),
{
    let p = rank(sorted, transaction.timestamp);
    lemma_rank(sorted, transaction.timestamp);
    vstd::seq_lib::to_multiset_insert(sorted, p, transaction);
}

/// Ordering by recency rearranges a list and drops nothing: the result has
/// the entries of the list, each as often as the list has it, and no entry
/// in it is followed by a more recent one.
pub proof fn lemma_newest_first(list: Seq<TransactionView>)
    ensures
        is_newest_first(newest_first(list)),
        newest_first(list).len() == list.len(),
        newest_first(list).to_multiset() == list.to_multiset(),
    decreases list.len(),
{
    if list.len() > 0 {
        let front = list.drop_last();
        lemma_newest_first(front);
        lemma_placed(newest_first(front), list.last());
        assert(list =~= front.push(list.last()));
        vstd::seq_lib::to_multiset_build(front, list.last());
    }
}

struct IndexSlot {
    owner: Identity,
    ids: Vec<String>,
}

/// The store of transactions. No identifier has two records, and no owner
/// two lists.
pub struct TransactionLedger {
    records: Vec<Transaction>,
    index: Vec<IndexSlot>,
}

impl View for TransactionLedger {
    type V = HistoryView;

    closed spec fn view(&self) -> HistoryView {
        HistoryView {
            records: pairing(self.ids(), self.entries()),
            index: pairing(self.owners(), self.lists()),
        }
    }
}

spec fn text_views(texts: Seq<String>) -> Seq<Seq<char>> {
    texts.map_values(|text: String| text@)
}

impl TransactionLedger {
    spec fn ids(&self) -> Seq<Seq<char>> {
        Seq::new(self.records@.len(), |i: int| self.records@[i].id@)
    }

    spec fn entries(&self) -> Seq<TransactionView> {
        Seq::new(self.records@.len(), |i: int| self.records@[i]@)
    }

    spec fn owners(&self) -> Seq<Seq<u8>> {
        Seq::new(self.index@.len(), |i: int| self.index@[i].owner@)
    }

    spec fn lists(&self) -> Seq<Seq<Seq<char>>> {
        Seq::new(self.index@.len(), |i: int| text_views(self.index@[i].ids@))
    }

    /// No identifier has two records, and no owner two lists.
    pub closed spec fn wf(&self) -> bool {
        &&& self.ids().no_duplicates()
        &&& self.owners().no_duplicates()
    }

    /// A ledger without transactions.
    pub fn new() -> (ledger: TransactionLedger)
        ensures
            ledger.wf(),
            ledger@.records == Map::<Seq<char>, TransactionView>::empty(),
            ledger@.index == Map::<Seq<u8>, Seq<Seq<char>>>::empty(),
    {
        TransactionLedger { records: Vec::new(), index: Vec::new() }
    }

    fn record_position(&self, id: &str) -> (found: Option<usize>)
        ensures
            match found {
                Some(i) => i < self.records@.len() && self.ids()[i as int] == id@,
                None => !self.ids().contains(id@),
            },
    {
        let mut i: usize = 0;
        while i < self.records.len()
            invariant
                0 <= i <= self.records@.len(),
                forall|j: int| 0 <= j < i ==> self.ids()[j] != id@,
            decreases self.records@.len() - i,
        {
            if same_text(self.records[i].id.as_str(), id) {
                return Some(i);
            }
            i += 1;
        }
        None
    }

    fn owner_position(&self, owner: &Identity) -> (found: Option<usize>)
        ensures
            match found {
                Some(i) => i < self.index@.len() && self.owners()[i as int] == owner@,
                None => !self.owners().contains(owner@),
            },
    {
        let mut i: usize = 0;
        while i < self.index.len()
            invariant
                0 <= i <= self.index@.len(),
                forall|j: int| 0 <= j < i ==> self.owners()[j] != owner@,
            decreases self.index@.len() - i,
        {
            if self.index[i].owner.same(owner) {
                return Some(i);
            }
            i += 1;
        }
        None
    }

    fn store(&mut self, transaction: Transaction)
        requires
            old(self).wf(),
        ensures
            final(self).wf(),
            final(self)@.records == old(self)@.records.insert(transaction.id@, transaction@),
            final(self)@.index == old(self)@.index,
    {
        let ghost filed = transaction@;
        match self.record_position(transaction.id.as_str()) {
            Some(i) => {
                self.records[i] = transaction;
                proof {
                    assert(self.ids() =~= old(self).ids());
                    lemma_pairing_update(old(self).ids(), old(self).entries(), i as int, filed);
                }
            },
            None => {
                proof {
                    lemma_pairing_push(self.ids(), self.entries(), filed.id, filed);
                }
                self.records.push(transaction);
                proof {
                    assert(self.ids() =~= old(self).ids().push(filed.id));
                }
            },
        }
    }

    fn file(&mut self, owner: &Identity, id: String)
        requires
            old(self).wf(),
        ensures
            final(self).wf(),
            final(self)@.records == old(self)@.records,
            final(self)@.index == appended(old(self)@.index, owner@, id@),
    {
        let ghost filed = id@;
        match self.owner_position(owner) {
            Some(i) => {
                proof {
                    lemma_pairing_at(self.owners(), self.lists(), i as int);
                }
                self.index[i].ids.push(id);
                proof {
                    let list = old(self).lists()[i as int].push(filed);
                    assert(text_views(self.index@[i as int].ids@) =~= list);
                    assert(self.owners() =~= old(self).owners());
                    lemma_pairing_update(old(self).owners(), old(self).lists(), i as int, list);
                }
            },
            None => {
                let mut ids: Vec<String> = Vec::new();
                ids.push(id);
                proof {
                    assert(text_views(ids@) =~= Seq::<Seq<char>>::empty().push(filed));
                    lemma_pairing_push(self.owners(), self.lists(), owner@, text_views(ids@));
                }
                self.index.push(IndexSlot { owner: owner.clone(), ids });
                proof {
                    assert(self.owners() =~= old(self).owners().push(owner@));
                }
            },
        }
    }

    /// Records a transaction under its identifier, in place of any earlier
    /// record with the same identifier, and files the identifier for the
    /// sender and for the receiver.
    pub fn record(&mut self, transaction: Transaction)
        requires
            old(self).wf(),
        ensures
            final(self).wf(),
            final(self)@ == recorded(old(self)@, transaction@),
    {
        let id_for_sender = transaction.id.clone();
        let id_for_receiver = transaction.id.clone();
        let from = transaction.from.clone();
        let to = transaction.to.clone();
        self.store(transaction);
        self.file(&from, id_for_sender);
        self.file(&to, id_for_receiver);
    }

    /// Marks the transaction with this identifier as confirmed. A ledger
    /// that does not hold it stays as it is.
    pub fn confirm(&mut self, id: &str)
        requires
            old(self).wf(),
        ensures
            final(self).wf(),
            final(self)@ == confirmed(old(self)@, id@),
    {
        match self.record_position(id) {
            Some(i) => {
                proof {
                    lemma_pairing_at(self.ids(), self.entries(), i as int);
                }
                self.records[i].status = TransactionStatus::Confirmed;
                proof {
                    let after = TransactionView {
                        status: TransactionStatus::Confirmed,
                        ..old(self)@.records[id@]
                    };
                    assert(self.ids() =~= old(self).ids());
                    assert(self.entries() =~= old(self).entries().update(i as int, after));
                    lemma_pairing_update(old(self).ids(), old(self).entries(), i as int, after);
                }
            },
            None => {},
        }
    }

    /// A copy of the transaction with this identifier, or
    /// `TransactionNotFound`.
    pub fn get(&self, id: &str) -> (found: Result<Transaction, LedgerError>)
        requires
            self.wf(),
        ensures
            match found {
                Ok(transaction) => self@.records.dom().contains(id@) && transaction@
                    == self@.records[id@],
                Err(error) => !self@.records.dom().contains(id@) && error
                    == LedgerError::TransactionNotFound,
            },
    {
        match self.record_position(id) {
            Some(i) => {
                proof {
                    lemma_pairing_at(self.ids(), self.entries(), i as int);
                }
                Ok(self.records[i].clone())
            },
            None => Err(LedgerError::TransactionNotFound),
        }
    }

    /// How many identifiers are filed for the owner.
    pub fn count(&self, owner: &Identity) -> (n: u64)
        requires
            self.wf(),
        ensures
            n == ids_of(self@.index, owner@).len(),
    {
        match self.owner_position(owner) {
            Some(i) => {
                proof {
                    lemma_pairing_at(self.owners(), self.lists(), i as int);
                }
                self.index[i].ids.len() as u64
            },
            None => 0,
        }
    }

    /// Copies of the transactions filed for the owner, most recent first.
    /// Transactions with the same timestamp come in the order in which they
    /// were filed.
    pub fn history(&self, owner: &Identity) -> (list: Vec<Transaction>)
        requires
            self.wf(),
        ensures
            transaction_views(list@) == newest_first(
                resolved(ids_of(self@.index, owner@), self@.records),
            ),
            is_newest_first(transaction_views(list@)),
            transaction_views(list@).to_multiset() == resolved(
                ids_of(self@.index, owner@),
                self@.records,
            ).to_multiset(),
    {
        let mut list: Vec<Transaction> = Vec::new();
        let ghost known = |id: Seq<char>| self@.records.dom().contains(id);
        let ghost held = |id: Seq<char>| self@.records[id];
        let ghost filed = ids_of(self@.index, owner@);
        proof {
            lemma_newest_first(resolved(filed, self@.records));
        }
        match self.owner_position(owner) {
            None => {
                proof {
                    assert(filed.filter(known) =~= Seq::<Seq<char>>::empty()) by {
                        reveal(Seq::filter);
                    }
                }
            },
            Some(k) => {
                proof {
                    lemma_pairing_at(self.owners(), self.lists(), k as int);
                    assert(filed.take(0).filter(known) =~= Seq::<Seq<char>>::empty()) by {
                        reveal(Seq::filter);
                    }
                }
                let mut i: usize = 0;
                while i < self.index[k].ids.len()
                    invariant
                        self.wf(),
                        k < self.index@.len(),
                        filed == text_views(self.index@[k as int].ids@),
                        known == |id: Seq<char>| self@.records.dom().contains(id),
                        held == |id: Seq<char>| self@.records[id],
                        0 <= i <= filed.len(),
                        transaction_views(list@) == newest_first(
                            filed.take(i as int).filter(known).map_values(held),
                        ),
                    decreases filed.len() - i,
                {
                    let ghost front = filed.take(i as int);
                    let ghost id = filed[i as int];
                    proof {
                        assert(filed.take(i + 1) =~= front.push(id));
                        Seq::lemma_filter_push(front, id, known);
                    }
                    match self.record_position(self.index[k].ids[i].as_str()) {
                        Some(r) => {
                            let transaction = self.records[r].clone();
                            let mut p: usize = 0;
                            while p < list.len() && list[p].timestamp >= transaction.timestamp
                                invariant
                                    0 <= p <= list@.len(),
                                    forall|j: int|
                                        0 <= j < p ==> transaction_views(list@)[j].timestamp
                                            >= transaction.timestamp,
                                decreases list@.len() - p,
                            {
                                p += 1;
                            }
                            let ghost before = transaction_views(list@);
                            proof {
                                lemma_pairing_at(self.ids(), self.entries(), r as int);
                                lemma_rank_found(before, transaction.timestamp, p as int);
                                let chosen = front.filter(known).map_values(held);
                                assert(front.filter(known).push(id).map_values(held) =~= chosen.push(
                                    held(id),
                                ));
                                assert(chosen.push(held(id)).drop_last() =~= chosen);
                            }
                            list.insert(p, transaction);
                            assert(transaction_views(list@) =~= before.insert(p as int, held(id)));
                        },
                        None => {},
                    }
                    i += 1;
                }
                proof {
                    assert(filed.take(i as int) =~= filed);
                }
            },
        }
        list
    }
}

} // verus!
