//! The descriptive record attached to a built dictionary.

use vstd::prelude::*;

verus! {

/// A semantic version: major, minor, patch.
#[derive(Debug, PartialEq, Eq, Structural, Clone, Copy)]
pub struct Version {
    pub major: u64,
    pub minor: u64,
    pub patch: u64,
}

impl Version {
    pub fn new(major: u64, minor: u64, patch: u64) -> (v: Version)
        ensures
            v == (Version { major, minor, patch }),
    {
        Version { major, minor, patch }
    }
}

/// The metadata of a dictionary: its name, author, semantic version,
/// optional homepage and update addresses, and free-form notes.
///
/// Bound once at build time and never mutated afterwards.
#[derive(Debug, PartialEq, Eq)]
pub struct DictionaryMetadata {
    pub name: String,
    pub author: String,
    pub version: Version,
    pub homepage_url: Option<String>,
    pub update_url: Option<String>,
    pub notes: String,
}

/// The mathematical value of a [`DictionaryMetadata`]: every text field
/// taken as a sequence of characters.
#[verifier::ext_equal]
pub struct MetadataModel {
    pub name: Seq<char>,
    pub author: Seq<char>,
    pub version: Version,
    pub homepage_url: Option<Seq<char>>,
    pub update_url: Option<Seq<char>>,
    pub notes: Seq<char>,
}

impl View for DictionaryMetadata {
    type V = MetadataModel;

    open spec fn view(&self) -> MetadataModel {
        MetadataModel {
            name: self.name@,
            author: self.author@,
            version: self.version,
            homepage_url: self.homepage_url.deep_view(),
            update_url: self.update_url.deep_view(),
            notes: self.notes@,
        }
    }
}

impl Clone for DictionaryMetadata {
    fn clone(&self) -> (r: Self)
        ensures
            r@ == self@,
    {
        let r = DictionaryMetadata {
            name: self.name.clone(),
            author: self.author.clone(),
            version: self.version,
            homepage_url: self.homepage_url.clone(),
            update_url: self.update_url.clone(),
            notes: self.notes.clone(),
        };
        proof {
            assert(r.homepage_url.deep_view() =~= self.homepage_url.deep_view());
            assert(r.update_url.deep_view() =~= self.update_url.deep_view());
            assert(r@ =~= self@);
        }
        r
    }
}

impl Default for DictionaryMetadata {
    /// Empty texts and version 0.0.0.
    fn default() -> (r: Self)
        ensures
            r@.name.len() == 0,
            r@.author.len() == 0,
            r@.version == (Version { major: 0, minor: 0, patch: 0 }),
            (r@.homepage_url is None),
            (r@.update_url is None),
            r@.notes.len() == 0,
    {
        DictionaryMetadata {
            name: String::new(),
            author: String::new(),
            version: Version::new(0, 0, 0),
            homepage_url: None,
            update_url: None,
            notes: String::new(),
        }
    }
}

} // verus!
