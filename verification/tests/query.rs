use yomisama::dictionary::DictionaryEntry;
use yomisama::metadata::{DictionaryMetadata, Version};
use yomisama::query::QueryEntry;

#[test]
fn query_entry_from_dictionary_entry() {
    let entry = DictionaryEntry {
        readings: vec!["あそこ".to_owned()],
        gloss: "there".to_owned(),
        tags: vec!["pn".to_owned()],
    };
    let q = QueryEntry::from_dictionary_entry(entry, "彼処".to_owned());
    assert_eq!(q.word, "彼処");
    assert_eq!(q.word_alt, vec!["あそこ".to_owned()]);
    assert_eq!(q.text, "there");
    assert_eq!(q.tags, vec!["pn".to_owned()]);
}

#[test]
fn metadata_default_is_empty() {
    let m = DictionaryMetadata::default();
    assert_eq!(m.name, "");
    assert_eq!(m.author, "");
    assert_eq!(m.version, Version::new(0, 0, 0));
    assert!(m.homepage_url.is_none());
    assert!(m.update_url.is_none());
    assert_eq!(m.notes, "");
}
