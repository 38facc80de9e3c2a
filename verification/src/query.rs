//! Types handed to a user interface: a lookup result entry, and the
//! payload given to a newly created window.

use vstd::prelude::*;

use crate::dictionary::DictionaryEntry;

verus! {

/// An entry of a lookup result, shaped for display.
///
/// Compared to [`DictionaryEntry`], the added `word` field carries the
/// looked-up key itself, since an entry's readings need not repeat it.
#[derive(Debug, PartialEq, Eq)]
pub struct QueryEntry {
    pub word: String,
    pub word_alt: Vec<String>,
    pub text: String,
    pub tags: Vec<String>,
}

impl QueryEntry {
    /// Repackages a [`DictionaryEntry`] found under `word` for display:
    /// the readings become the alternate words, the gloss the text.
    pub fn from_dictionary_entry(entry: DictionaryEntry, word: String) -> (r: Self)
        ensures
            r.word@ == word@,
            r.word_alt.deep_view() == entry@.readings,
            r.text@ == entry@.gloss,
            r.tags.deep_view() == entry@.tags,
    {
        QueryEntry { word, word_alt: entry.readings, text: entry.gloss, tags: entry.tags }
    }
}

/// Payload data for a newly created window; each variant names the view
/// the window shows.
#[derive(Debug, PartialEq, Eq)]
pub enum Payload {
    /// The first-time setup view, told where configuration goes by
    /// default.
    FirstTimeSetup { default_config_dir: String },
    /// The lookup result view.
    Query,
}

} // verus!
