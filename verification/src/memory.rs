//! The in-memory storage backend: a trivial map-based dictionary for tests
//! and small or transient data. Duplicate keys are preserved, as the
//! storage abstraction demands.

use vstd::prelude::*;
use vstd::string::StrSliceExecFns;
use vstd::utf8::encode_utf8;

use crate::dictionary::DictionaryEntry;
use crate::metadata::{DictionaryMetadata, MetadataModel};
use crate::storage::{
    entries_under, lemma_entries_under_empty, lemma_entries_under_push_hit,
    lemma_entries_under_push_miss, ContentsModel, Dictionary, DictionaryBuilder,
};

verus! {

/// Compares two byte strings for equality.
pub fn bytes_eq(a: &[u8], b: &[u8]) -> (r: bool)
    ensures
        r <==> a@ == b@,
{
    if a.len() != b.len() {
        proof {
            assert(a@.len() != b@.len());
        }
        return false;
    }
    let mut i: usize = 0;
    while i < a.len()
        invariant
            i <= a.len(),
            a@.len() == b@.len(),
            forall|j: int| 0 <= j < i ==> a@[j] == b@[j],
        decreases a.len() - i,
    {
        if a[i] != b[i] {
            return false;
        }
        i += 1;
    }
    proof {
        assert(a@ =~= b@);
    }
    true
}

/// The builder of the in-memory backend. `add` never fails.
pub struct HashMapDictionaryBuilder {
    items: Vec<(Vec<u8>, DictionaryEntry)>,
}

/// The error type of the in-memory backend. No operation of this backend
/// can fail, so no value of it is ever made; it only satisfies the builder
/// interface.
#[derive(Debug)]
pub struct Error;

impl HashMapDictionaryBuilder {
    /// An empty builder.
    pub fn new() -> (r: Self)
        ensures
            r.contents() == Seq::<(Seq<u8>, crate::dictionary::EntryModel)>::empty(),
            r.inv(),
    {
        HashMapDictionaryBuilder { items: Vec::new() }
    }
}

impl DictionaryBuilder for HashMapDictionaryBuilder {
    type Dict = HashMapDictionary;

    type Error = Error;

    closed spec fn contents(&self) -> ContentsModel {
        self.items.deep_view()
    }

    closed spec fn inv(&self) -> bool {
        true
    }

    fn add(&mut self, key: &str, entry: DictionaryEntry) -> (r: Result<(), Error>)
        ensures
            r is Ok,
    {
        let key_bytes = key.as_bytes_vec();
        self.items.push((key_bytes, entry));
        proof {
            assert(self.items.deep_view() =~~= old(self).items.deep_view().push(
                (encode_utf8(key@), entry@),
            ));
        }
        Ok(())
    }

    fn build(self, metadata: DictionaryMetadata) -> (r: Result<HashMapDictionary, Error>)
        ensures
            r is Ok,
    {
        Ok(HashMapDictionary { items: self.items, metadata })
    }
}

/// The in-memory dictionary: records kept as added, queried by scanning.
pub struct HashMapDictionary {
    items: Vec<(Vec<u8>, DictionaryEntry)>,
    metadata: DictionaryMetadata,
}

impl Dictionary for HashMapDictionary {
    closed spec fn contents(&self) -> ContentsModel {
        self.items.deep_view()
    }

    closed spec fn metadata_model(&self) -> MetadataModel {
        self.metadata@
    }

    closed spec fn inv(&self) -> bool {
        true
    }

    fn get(&self, key: &str) -> (r: Vec<DictionaryEntry>) {
        let key_bytes = key.as_bytes();
        let ghost kb = encode_utf8(key@);
        let ghost contents = self.items.deep_view();
        let mut r: Vec<DictionaryEntry> = Vec::new();
        proof {
            lemma_entries_under_empty(kb);
            assert(contents.take(0) =~= Seq::<(Seq<u8>, crate::dictionary::EntryModel)>::empty());
        }
        let mut i: usize = 0;
        while i < self.items.len()
            invariant
                i <= self.items.len(),
                kb == encode_utf8(key@),
                key_bytes@ == kb,
                contents == self.items.deep_view(),
                contents.len() == self.items@.len(),
                r.deep_view() == entries_under(contents.take(i as int), kb),
            decreases self.items.len() - i,
        {
            let ghost pair = contents[i as int];
            proof {
                assert(contents.take(i + 1) =~= contents.take(i as int).push(pair));
                assert(pair.0 =~= self.items@[i as int].0@);
                assert(pair.1 == self.items@[i as int].1@);
            }
            if bytes_eq(self.items[i].0.as_slice(), key_bytes) {
                proof {
                    assert(pair.0 == kb);
                    lemma_entries_under_push_hit(contents.take(i as int), kb, pair.1);
                    assert(contents.take(i + 1) =~= contents.take(i as int).push((kb, pair.1)));
                }
                r.push(self.items[i].1.clone());
                proof {
                    assert(r.deep_view() =~= entries_under(contents.take(i + 1), kb));
                }
            } else {
                proof {
                    assert(pair.0 != kb);
                    lemma_entries_under_push_miss(contents.take(i as int), kb, pair.0, pair.1);
                }
            }
            i += 1;
        }
        proof {
            assert(contents.take(contents.len() as int) =~= contents);
        }
        r
    }

    fn get_metadata(&self) -> (m: &DictionaryMetadata) {
        &self.metadata
    }
}

impl Clone for HashMapDictionary {
    /// A copy with the same records and metadata.
    fn clone(&self) -> (r: Self)
        ensures
            r.contents() == self.contents(),
            r.metadata_model() == self.metadata_model(),
            r.inv(),
    {
        let mut items: Vec<(Vec<u8>, DictionaryEntry)> = Vec::new();
        let mut i: usize = 0;
        while i < self.items.len()
            invariant
                i <= self.items.len(),
                items.deep_view() == self.items.deep_view().take(i as int),
            decreases self.items.len() - i,
        {
            let key = vstd::slice::slice_to_vec(self.items[i].0.as_slice());
            let ent = self.items[i].1.clone();
            let ghost gkey = key;
            let ghost gent = ent;
            proof {
                let orig = self.items.deep_view()[i as int];
                assert(gkey.deep_view() =~= orig.0);
                assert(items.deep_view().len() == items@.len());
                assert(items@.len() == i as int);
            }
            items.push((key, ent));
            proof {
                let orig = self.items.deep_view()[i as int];
                assert(items@[i as int] == (gkey, gent));
                assert((gkey.deep_view(), gent.deep_view()) == orig);
                assert(items.deep_view() =~= self.items.deep_view().take(i + 1));
            }
            i += 1;
        }
        proof {
            assert(self.items.deep_view().take(self.items@.len() as int)
                =~= self.items.deep_view());
        }
        let r = HashMapDictionary { items, metadata: self.metadata.clone() };
        r
    }
}

} // verus!
