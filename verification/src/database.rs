//! The aggregator: an ordered collection of dictionaries, queried
//! together.

use vstd::prelude::*;
use vstd::utf8::encode_utf8;

use crate::dictionary::DictionaryEntry;
use crate::storage::{entries_under, Dictionary};

verus! {

/// An ordered sequence of dictionaries. The order is significant: it is
/// the order in which a lookup reports each dictionary's result. A
/// database owns its dictionaries exclusively.
pub struct Database<D: Dictionary> {
    pub dictionaries: Vec<D>,
}

impl<D: Dictionary> Database<D> {
    /// Every held dictionary satisfies its backend invariant.
    pub open spec fn wf(&self) -> bool {
        forall|i: int|
            0 <= i < self.dictionaries@.len() ==> (#[trigger] self.dictionaries@[i]).inv()
    }

    /// An empty database.
    pub fn new() -> (r: Self)
        ensures
            r.dictionaries@.len() == 0,
            r.wf(),
    {
        Database { dictionaries: Vec::new() }
    }

    /// Appends `dictionary` to the collection, taking ownership.
    pub fn add_dictionary(&mut self, dictionary: D)
        requires
            old(self).wf(),
            dictionary.inv(),
        ensures
            final(self).dictionaries@ == old(self).dictionaries@.push(dictionary),
            final(self).wf(),
    {
        self.dictionaries.push(dictionary);
    }

    /// Queries every held dictionary in collection order. Each dictionary
    /// contributes one pair: a reference to it and its own result for
    /// `key`, possibly empty — empty results are never filtered out, so a
    /// caller can tell "no dictionary matched" from "this one matched
    /// nothing".
    pub fn get<'a>(&'a self, key: &str) -> (r: Vec<(&'a D, Vec<DictionaryEntry>)>)
        requires
            self.wf(),
        ensures
            r@.len() == self.dictionaries@.len(),
            forall|i: int|
                0 <= i < r@.len() ==> {
                    &&& (#[trigger] r@[i]).0 == self.dictionaries@[i]
                    &&& r@[i].1.deep_view() == entries_under(
                        self.dictionaries@[i].contents(),
                        encode_utf8(key@),
                    )
                },
    {
        let mut r: Vec<(&'a D, Vec<DictionaryEntry>)> = Vec::new();
        let mut i: usize = 0;
        while i < self.dictionaries.len()
            invariant
                self.wf(),
                i <= self.dictionaries@.len(),
                r@.len() == i,
                forall|j: int|
                    0 <= j < i ==> {
                        &&& (#[trigger] r@[j]).0 == self.dictionaries@[j]
                        &&& r@[j].1.deep_view() == entries_under(
                            self.dictionaries@[j].contents(),
                            encode_utf8(key@),
                        )
                    },
            decreases self.dictionaries@.len() - i,
        {
            let d = &self.dictionaries[i];
            let found = d.get(key);
            r.push((d, found));
            i += 1;
        }
        r
    }
}

} // verus!
