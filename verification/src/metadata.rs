//! Free-form notes on a transaction: a mapping from names to texts.

use crate::assoc::{lemma_pairing_at, lemma_pairing_push, lemma_pairing_update, pairing};
use crate::text::same_text;
use vstd::prelude::*;

verus! {

/// A mapping from names to texts. No name occurs twice.
///
/// Its view is the mapping.
#[derive(Debug, PartialEq, Eq)]
pub struct Metadata {
    entries: Vec<(String, String)>,
}

/// The names of a list of entries, in the order of the list.
pub open spec fn names_of(entries: Seq<(String, String)>) -> Seq<Seq<char>> {
    entries.map_values(|entry: (String, String)| entry.0@)
}

/// The texts of a list of entries, in the order of the list.
pub open spec fn texts_of(entries: Seq<(String, String)>) -> Seq<Seq<char>> {
    entries.map_values(|entry: (String, String)| entry.1@)
}

impl View for Metadata {
    type V = Map<Seq<char>, Seq<char>>;

    closed spec fn view(&self) -> Map<Seq<char>, Seq<char>> {
        pairing(names_of(self.entries@), texts_of(self.entries@))
    }
}

impl Metadata {
    #[verifier::type_invariant]
    spec fn distinct(&self) -> bool {
        names_of(self.entries@).no_duplicates()
    }

    /// The empty mapping.
    pub fn new() -> (metadata: Metadata)
        ensures
            metadata@ == Map::<Seq<char>, Seq<char>>::empty(),
    {
        let metadata = Metadata { entries: Vec::new() };
        assert(metadata@ =~= Map::<Seq<char>, Seq<char>>::empty());
        metadata
    }

    fn position(&self, name: &str) -> (found: Option<usize>)
        ensures
            match found {
                Some(i) => i < self.entries@.len() && names_of(self.entries@)[i as int] == name@,
                None => !names_of(self.entries@).contains(name@),
            },
    {
        let mut i: usize = 0;
        while i < self.entries.len()
            invariant
                0 <= i <= self.entries@.len(),
                forall|j: int| 0 <= j < i ==> names_of(self.entries@)[j] != name@,
            decreases self.entries@.len() - i,
        {
            if same_text(self.entries[i].0.as_str(), name) {
                return Some(i);
            }
            i += 1;
        }
        None
    }

    /// A copy of the text filed under a name, if there is one.
    pub fn get(&self, name: &str) -> (found: Option<String>)
        ensures
            match found {
                Some(text) => self@.dom().contains(name@) && text@ == self@[name@],
                None => !self@.dom().contains(name@),
            },
    {
        proof {
            use_type_invariant(self);
        }
        match self.position(name) {
            Some(i) => {
                proof {
                    lemma_pairing_at(
                        names_of(self.entries@),
                        texts_of(self.entries@),
                        i as int,
                    );
                }
                Some(self.entries[i].1.clone())
            },
            None => None,
        }
    }

    /// Files a text under a name, in place of any text the name had.
    pub fn insert(&mut self, name: String, text: String)
        ensures
            final(self)@ == old(self)@.insert(name@, text@),
    {
        proof {
            use_type_invariant(&*self);
        }
        let ghost names = names_of(self.entries@);
        let ghost texts = texts_of(self.entries@);
        let found = self.position(name.as_str());
        let mut entries: Vec<(String, String)> = Vec::new();
        std::mem::swap(&mut entries, &mut self.entries);
        match found {
            Some(i) => {
                proof {
                    lemma_pairing_update(names, texts, i as int, text@);
                }
                entries.set(i, (name, text));
                assert(names_of(entries@) =~= names);
                assert(texts_of(entries@) =~= texts.update(i as int, text@));
            },
            None => {
                proof {
                    lemma_pairing_push(names, texts, name@, text@);
                }
                entries.push((name, text));
                assert(names_of(entries@) =~= names.push(name@));
                assert(texts_of(entries@) =~= texts.push(text@));
            },
        }
        self.entries = entries;
    }

    /// Copies of the entries, each name once, in the order in which the
    /// names were first filed.
    pub fn entries(&self) -> (list: Vec<(String, String)>)
        ensures
            names_of(list@).no_duplicates(),
            pairing(names_of(list@), texts_of(list@)) == self@,
    {
        proof {
            use_type_invariant(self);
        }
        let mut list: Vec<(String, String)> = Vec::new();
        let mut i: usize = 0;
        while i < self.entries.len()
            invariant
                0 <= i <= self.entries@.len(),
                list@.len() == i,
                forall|j: int|
                    0 <= j < i ==> list@[j].0@ == self.entries@[j].0@ && list@[j].1@
                        == self.entries@[j].1@,
            decreases self.entries@.len() - i,
        {
            list.push((self.entries[i].0.clone(), self.entries[i].1.clone()));
            i += 1;
        }
        assert(names_of(list@) =~= names_of(self.entries@));
        assert(texts_of(list@) =~= texts_of(self.entries@));
        list
    }
}

impl Clone for Metadata {
    fn clone(&self) -> (copy: Metadata)
        ensures
            copy@ == self@,
    {
        proof {
            use_type_invariant(self);
        }
        let entries = self.entries();
        Metadata { entries }
    }
}

} // verus!
