//! The dictionary data model: entries, the storage capability traits, and
//! the errors that storage backends report.

use vstd::prelude::*;

verus! {

/// One dictionary record: the readings of a word, its gloss text (several
/// sense definitions already joined by newlines), and its flattened tag list.
///
/// Entries are immutable value objects; equality is structural. Several
/// entries may be stored under the same lookup key.
#[derive(Debug, PartialEq, Eq)]
pub struct DictionaryEntry {
    pub readings: Vec<String>,
    pub gloss: String,
    pub tags: Vec<String>,
}

/// The mathematical value of a [`DictionaryEntry`]: every text field taken
/// as a sequence of characters.
#[verifier::ext_equal]
pub struct EntryModel {
    pub readings: Seq<Seq<char>>,
    pub gloss: Seq<char>,
    pub tags: Seq<Seq<char>>,
}

impl View for DictionaryEntry {
    type V = EntryModel;

    open spec fn view(&self) -> EntryModel {
        EntryModel {
            readings: self.readings.deep_view(),
            gloss: self.gloss@,
            tags: self.tags.deep_view(),
        }
    }
}

impl DeepView for DictionaryEntry {
    type V = EntryModel;

    open spec fn deep_view(&self) -> EntryModel {
        self.view()
    }
}

impl Clone for DictionaryEntry {
    fn clone(&self) -> (r: Self)
        ensures
            r@ == self@,
    {
        let r = DictionaryEntry {
            readings: self.readings.clone(),
            gloss: self.gloss.clone(),
            tags: self.tags.clone(),
        };
        proof {
            assert(r.readings.deep_view() =~= self.readings.deep_view());
            assert(r.tags.deep_view() =~= self.tags.deep_view());
            assert(r@ =~= self@);
        }
        r
    }
}

/// `std::io::Error`, declared so that error values of file-backed storage
/// can carry the failure they saw. The type is opaque here; nothing is
/// assumed about its values.
#[verifier::external_type_specification]
#[verifier::external_body]
pub struct ExIoError(std::io::Error);

/// An error from dictionary storage or from the entry codec.
#[derive(Debug)]
pub enum Error {
    /// A file operation failed.
    Io(std::io::Error),
    /// Stored bytes are not the layout of any entry (truncated, a malformed
    /// length prefix, or invalid UTF-8 text).
    CorruptEntry,
    /// Key text was not valid UTF-8.
    Utf8,
}

} // verus!
