//! The key registry: one key record per owner.

use crate::assoc::{lemma_pairing_at, lemma_pairing_push, lemma_pairing_update, pairing};
use crate::identity::Identity;
use crate::types::{KeyPair, KeyPairView, LedgerError};
use vstd::prelude::*;

verus! {

struct KeySlot {
    owner: Identity,
    record: KeyPair,
}

/// The key records of all owners, at most one per owner.
///
/// Its view is the map from owner to record.
pub struct KeyRegistry {
    slots: Vec<KeySlot>,
}

impl View for KeyRegistry {
    type V = Map<Seq<u8>, KeyPairView>;

    closed spec fn view(&self) -> Map<Seq<u8>, KeyPairView> {
        pairing(self.owners(), self.records())
    }
}

impl KeyRegistry {
    spec fn owners(&self) -> Seq<Seq<u8>> {
        Seq::new(self.slots@.len(), |i: int| self.slots@[i].owner@)
    }

    spec fn records(&self) -> Seq<KeyPairView> {
        Seq::new(self.slots@.len(), |i: int| self.slots@[i].record@)
    }

    /// No owner is filed twice.
    pub closed spec fn wf(&self) -> bool {
        self.owners().no_duplicates()
    }

    /// A registry without records.
    pub fn new() -> (registry: KeyRegistry)
        ensures
            registry.wf(),
            registry@ == Map::<Seq<u8>, KeyPairView>::empty(),
    {
        KeyRegistry { slots: Vec::new() }
    }

    fn position(&self, owner: &Identity) -> (found: Option<usize>)
        ensures
            match found {
                Some(i) => i < self.slots@.len() && self.owners()[i as int] == owner@,
                None => !self.owners().contains(owner@),
            },
    {
        let mut i: usize = 0;
        while i < self.slots.len()
            invariant
                0 <= i <= self.slots@.len(),
                forall|j: int| 0 <= j < i ==> self.owners()[j] != owner@,
            decreases self.slots@.len() - i,
        {
            if self.slots[i].owner.same(owner) {
                return Some(i);
            }
            i += 1;
        }
        None
    }

    /// Files `record` for the owner, in place of any record the owner had.
    pub fn put(&mut self, owner: &Identity, record: KeyPair)
        requires
            old(self).wf(),
        ensures
            final(self).wf(),
            final(self)@ == old(self)@.insert(owner@, record@),
    {
        let ghost filed = record@;
        match self.position(owner) {
            Some(i) => {
                self.slots[i].record = record;
                proof {
                    assert(self.owners() =~= old(self).owners());
                    lemma_pairing_update(old(self).owners(), old(self).records(), i as int, filed);
                }
            },
            None => {
                proof {
                    lemma_pairing_push(self.owners(), self.records(), owner@, filed);
                }
                self.slots.push(KeySlot { owner: owner.clone(), record });
                proof {
                    assert(self.owners() =~= old(self).owners().push(owner@));
                }
            },
        }
    }

    /// A copy of the owner's record, or `KeyNotFound` when the owner has
    /// none.
    pub fn get(&self, owner: &Identity) -> (found: Result<KeyPair, LedgerError>)
        requires
            self.wf(),
        ensures
            match found {
                Ok(record) => self@.dom().contains(owner@) && record@ == self@[owner@],
                Err(error) => !self@.dom().contains(owner@) && error == LedgerError::KeyNotFound,
            },
    {
        match self.position(owner) {
            Some(i) => {
                proof {
                    lemma_pairing_at(self.owners(), self.records(), i as int);
                }
                Ok(self.slots[i].record.clone())
            },
            None => Err(LedgerError::KeyNotFound),
        }
    }
}

} // verus!
