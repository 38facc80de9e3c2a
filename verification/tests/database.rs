use yomisama::database::Database;
use yomisama::dictionary::DictionaryEntry;
use yomisama::memory::HashMapDictionaryBuilder;
use yomisama::storage::{Dictionary, DictionaryBuilder};

#[test]
fn mod_basic() {
    let mut database = Database::new();
    let mut dict_builder = HashMapDictionaryBuilder::new();
    let dict_entry = DictionaryEntry {
        readings: vec!["あける".to_owned()],
        gloss: "to open (a door, etc.), to unwrap (e.g. parcel, package), to unlock".to_owned(),
        tags: vec!["P".to_owned(), "v1".to_owned(), "vt".to_owned()],
    };
    dict_builder.add("test", dict_entry.clone()).unwrap();
    let dict = dict_builder.build(Default::default()).unwrap();
    database.add_dictionary(dict.clone());

    assert_eq!(
        database.get("test").first().unwrap().1.first().unwrap(),
        &dict_entry
    );
}

#[test]
fn database_fans_out_in_order() {
    let entry = DictionaryEntry {
        readings: vec!["よみ".to_owned()],
        gloss: "reading".to_owned(),
        tags: vec![],
    };

    let mut with_key = HashMapDictionaryBuilder::new();
    with_key.add("test", entry.clone()).unwrap();
    let with_key = with_key.build(Default::default()).unwrap();

    let without_key = HashMapDictionaryBuilder::new();
    let without_key = without_key.build(Default::default()).unwrap();

    let mut database = Database::new();
    database.add_dictionary(with_key);
    database.add_dictionary(without_key);

    let results = database.get("test");
    assert_eq!(results.len(), 2);
    assert_eq!(results[0].1, vec![entry]);
    assert!(results[1].1.is_empty());
}

#[test]
fn memory_duplicate_keys_kept_in_order() {
    let first = DictionaryEntry {
        readings: vec!["かく".to_owned()],
        gloss: "to write".to_owned(),
        tags: vec![],
    };
    let second = DictionaryEntry {
        readings: vec!["かく".to_owned()],
        gloss: "to draw".to_owned(),
        tags: vec!["v5k".to_owned()],
    };

    let mut builder = HashMapDictionaryBuilder::new();
    builder.add("かく", first.clone()).unwrap();
    builder.add("かく", second.clone()).unwrap();
    let dict = builder.build(Default::default()).unwrap();

    assert_eq!(dict.get("かく"), vec![first, second]);
    assert!(dict.get("よむ").is_empty());
}
