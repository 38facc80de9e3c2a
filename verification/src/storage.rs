//! The dictionary storage abstraction: the read capability, the write-once
//! builder capability, and the laws of the key-to-entries mapping.

use vstd::prelude::*;
use vstd::utf8::encode_utf8;

use crate::dictionary::{DictionaryEntry, EntryModel};
use crate::metadata::{DictionaryMetadata, MetadataModel};

verus! {

broadcast use vstd::seq_lib::group_seq_properties;

/// What a dictionary holds: its records as (key, entry) pairs in insertion
/// order. A key is the UTF-8 bytes of its lookup text; stored keys are
/// compared with the query byte for byte.
pub type ContentsModel = Seq<(Seq<u8>, EntryModel)>;

pub open spec fn key_matches(key: Seq<u8>) -> spec_fn((Seq<u8>, EntryModel)) -> bool {
    |p: (Seq<u8>, EntryModel)| p.0 == key
}

/// Every entry stored under `key`, in insertion order.
pub open spec fn entries_under(contents: ContentsModel, key: Seq<u8>) -> Seq<EntryModel> {
    contents.filter(key_matches(key)).map_values(|p: (Seq<u8>, EntryModel)| p.1)
}

/// An immutable, queryable mapping from a text key to the entries stored
/// under it, with the metadata bound at build time. Created only through a
/// [`DictionaryBuilder`]; read-only thereafter.
pub trait Dictionary: Sized {
    /// The records this dictionary holds, in insertion order.
    spec fn contents(&self) -> ContentsModel;

    /// The metadata bound at build time.
    spec fn metadata_model(&self) -> MetadataModel;

    /// The backend's internal invariant; builders establish it and lookups
    /// rely on it.
    spec fn inv(&self) -> bool;

    /// Every entry stored under `key`, in insertion order. Total over all
    /// keys: an absent key gives an empty result, never an error.
    fn get(&self, key: &str) -> (r: Vec<DictionaryEntry>)
        requires
            self.inv(),
        ensures
            r.deep_view() == entries_under(self.contents(), encode_utf8(key@)),
    ;

    /// The metadata this dictionary was built with. Always succeeds.
    fn get_metadata(&self) -> (m: &DictionaryMetadata)
        requires
            self.inv(),
        ensures
            m@ == self.metadata_model(),
    ;
}

/// A mutable, write-only accumulator of records: created empty, fed by
/// `add`, and consumed exactly once by `build`, which yields a
/// [`Dictionary`].
pub trait DictionaryBuilder: Sized {
    type Dict: Dictionary;

    type Error;

    /// The records added so far, in order.
    spec fn contents(&self) -> ContentsModel;

    /// The backend's internal invariant. After a failed `add` nothing is
    /// promised of the builder's state.
    spec fn inv(&self) -> bool;

    /// Appends one record under `key`. Never overwrites or merges:
    /// records under duplicate keys are all preserved, in the order they
    /// were added.
    fn add(&mut self, key: &str, entry: DictionaryEntry) -> (r: Result<(), Self::Error>)
        requires
            old(self).inv(),
        ensures
            r is Ok ==> final(self).inv() && final(self).contents() == old(self).contents().push(
                (encode_utf8(key@), entry@),
            ),
    ;

    /// Consumes the builder, finalizes the backend's indexing, and binds
    /// `metadata`. On success the dictionary holds exactly the records the
    /// builder accumulated.
    fn build(self, metadata: DictionaryMetadata) -> (r: Result<Self::Dict, Self::Error>)
        requires
            self.inv(),
        ensures
            r matches Ok(d) ==> {
                &&& d.inv()
                &&& d.contents() == self.contents()
                &&& d.metadata_model() == metadata@
            },
    ;
}

/// Duplicate keys are preserved: after two entries are stored under the
/// same key, a lookup of that key returns both, in insertion order, behind
/// whatever the key already held.
pub proof fn lemma_duplicate_keys_preserved(
    contents: ContentsModel,
    key: Seq<u8>,
    e1: EntryModel,
    e2: EntryModel,
)
    ensures
        entries_under(contents.push((key, e1)).push((key, e2)), key) == entries_under(
            contents,
            key,
        ).push(e1).push(e2),
{
    lemma_entries_under_push_hit(contents, key, e1);
    lemma_entries_under_push_hit(contents.push((key, e1)), key, e2);
}

/// Adding a record under `key` appends its entry to what a lookup of `key`
/// returns.
pub proof fn lemma_entries_under_push_hit(contents: ContentsModel, key: Seq<u8>, e: EntryModel)
    ensures
        entries_under(contents.push((key, e)), key) == entries_under(contents, key).push(e),
{
    let pred = key_matches(key);
    let single = seq![(key, e)];
    assert(contents.push((key, e)) =~= contents + single);
    Seq::filter_distributes_over_add(contents, single, pred);
    assert(single.filter(pred) =~= single) by {
        reveal_with_fuel(Seq::filter, 2);
        assert(single.drop_last() =~= Seq::<(Seq<u8>, EntryModel)>::empty());
    }
    assert(contents.filter(pred) + single =~= contents.filter(pred).push((key, e)));
    assert(entries_under(contents.push((key, e)), key) =~= entries_under(contents, key).push(e));
}

/// Adding a record under another key leaves a lookup of `key` unchanged.
pub proof fn lemma_entries_under_push_miss(
    contents: ContentsModel,
    key: Seq<u8>,
    other: Seq<u8>,
    e: EntryModel,
)
    requires
        other != key,
    ensures
        entries_under(contents.push((other, e)), key) == entries_under(contents, key),
{
    let pred = key_matches(key);
    let single = seq![(other, e)];
    assert(contents.push((other, e)) =~= contents + single);
    Seq::filter_distributes_over_add(contents, single, pred);
    assert(single.filter(pred) =~= Seq::<(Seq<u8>, EntryModel)>::empty()) by {
        reveal_with_fuel(Seq::filter, 2);
        assert(single.drop_last() =~= Seq::<(Seq<u8>, EntryModel)>::empty());
    }
    assert(contents.filter(pred) + single.filter(pred) =~= contents.filter(pred));
    assert(entries_under(contents.push((other, e)), key) =~= entries_under(contents, key));
}

/// A lookup in empty contents finds nothing.
pub proof fn lemma_entries_under_empty(key: Seq<u8>)
    ensures
        entries_under(Seq::empty(), key) == Seq::<EntryModel>::empty(),
{
    reveal_with_fuel(Seq::filter, 1);
    assert(entries_under(Seq::empty(), key) =~= Seq::<EntryModel>::empty());
}

/// Filtering then mapping a sequence extended by one element: the image
/// grows by the element's image exactly when the element passes the
/// filter.
pub proof fn lemma_filter_map_push<A, B>(
    s: Seq<A>,
    pred: spec_fn(A) -> bool,
    f: spec_fn(A) -> B,
    x: A,
)
    ensures
        pred(x) ==> s.push(x).filter(pred).map_values(f) == s.filter(pred).map_values(f).push(
            f(x),
        ),
        !pred(x) ==> s.push(x).filter(pred).map_values(f) == s.filter(pred).map_values(f),
{
    let single = seq![x];
    assert(s.push(x) =~= s + single);
    Seq::filter_distributes_over_add(s, single, pred);
    reveal_with_fuel(Seq::filter, 2);
    assert(single.drop_last() =~= Seq::<A>::empty());
    if pred(x) {
        assert(single.filter(pred) =~= single);
        assert((s.filter(pred) + single).map_values(f) =~= s.filter(pred).map_values(f).push(
            f(x),
        ));
    } else {
        assert(single.filter(pred) =~= Seq::<A>::empty());
        assert((s.filter(pred) + single.filter(pred)).map_values(f) =~= s.filter(
            pred,
        ).map_values(f));
    }
}

} // verus!
