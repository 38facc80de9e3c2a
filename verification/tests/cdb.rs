use yomisama::cdb_dict::{CDBDictionary, CDBDictionaryBuilder};
use yomisama::dictionary::DictionaryEntry;
use yomisama::metadata::{DictionaryMetadata, Version};
use yomisama::storage::{Dictionary, DictionaryBuilder};

fn temp_path(dir: &tempfile::TempDir, name: &str) -> String {
    dir.path()
        .join(name)
        .to_str()
        .expect("cdb database path is not valid utf-8")
        .to_owned()
}

#[test]
fn cdb_basic() {
    let temp_dir = tempfile::tempdir().expect("could not create temp dir");

    let mut cdb_dict_builder =
        CDBDictionaryBuilder::new(&temp_path(&temp_dir, "cdb-test-basic")).unwrap();

    let test1 = DictionaryEntry {
        readings: vec!["abc".to_owned()],
        gloss: "defg".to_owned(),
        tags: vec!["hi".to_owned(), "jk".to_owned()],
    };

    let test2 = DictionaryEntry {
        readings: vec!["lmn".to_owned()],
        gloss: "opqr".to_owned(),
        tags: vec!["st".to_owned(), "uv".to_owned()],
    };

    cdb_dict_builder.add("test1", test1.clone()).unwrap();
    cdb_dict_builder.add("test2", test2.clone()).unwrap();

    let metadata = DictionaryMetadata {
        name: "cdb test basic".to_owned(),
        author: "tomokao".to_owned(),
        version: Version::new(1, 2, 3),
        homepage_url: Some("https://github.com/tomokao/yomisama".to_owned()),
        update_url: None,
        notes: "this is a test dictionary".to_owned(),
    };
    let cdb_dict = cdb_dict_builder.build(metadata.clone()).unwrap();

    assert_eq!(*cdb_dict.get("test1").first().unwrap(), test1);
    assert_eq!(*cdb_dict.get("test2").first().unwrap(), test2);
    assert!(cdb_dict.get("test3").is_empty());
    assert_eq!(cdb_dict.get_metadata(), &metadata);
}

#[test]
fn cdb_basic_minimal() {
    let temp_dir = tempfile::tempdir().expect("could not create temp dir");

    let mut cdb_dict_builder =
        CDBDictionaryBuilder::new(&temp_path(&temp_dir, "cdb-test-basic-minimal")).unwrap();

    let test1 = DictionaryEntry {
        readings: vec!["abc".to_owned()],
        gloss: "defg".to_owned(),
        tags: vec!["hi".to_owned(), "jk".to_owned()],
    };

    let test2 = DictionaryEntry {
        readings: vec!["lmn".to_owned()],
        gloss: "opqr".to_owned(),
        tags: vec!["st".to_owned(), "uv".to_owned()],
    };

    cdb_dict_builder.add("test1", test1.clone()).unwrap();
    cdb_dict_builder.add("test2", test2.clone()).unwrap();

    let cdb_dict = cdb_dict_builder.build(Default::default()).unwrap();
    assert_eq!(*cdb_dict.get("test1").first().unwrap(), test1);
    assert_eq!(*cdb_dict.get("test2").first().unwrap(), test2);
    assert!(cdb_dict.get("test3").is_empty());
}

#[test]
fn cdb_duplicate_keys_kept_in_order() {
    let temp_dir = tempfile::tempdir().expect("could not create temp dir");
    let mut builder =
        CDBDictionaryBuilder::new(&temp_path(&temp_dir, "cdb-test-duplicates")).unwrap();

    let first = DictionaryEntry {
        readings: vec!["one".to_owned()],
        gloss: "first sense".to_owned(),
        tags: vec![],
    };
    let second = DictionaryEntry {
        readings: vec!["one".to_owned()],
        gloss: "second sense".to_owned(),
        tags: vec!["n".to_owned()],
    };

    builder.add("one", first.clone()).unwrap();
    builder.add("other", second.clone()).unwrap();
    builder.add("one", second.clone()).unwrap();

    let dict = builder.build(Default::default()).unwrap();
    assert_eq!(dict.get("one"), vec![first, second.clone()]);
    assert_eq!(dict.get("other"), vec![second]);
}

#[test]
fn cdb_reopen_preserves_records_and_metadata() {
    let temp_dir = tempfile::tempdir().expect("could not create temp dir");
    let path = temp_path(&temp_dir, "cdb-test-reopen");
    let mut builder = CDBDictionaryBuilder::new(&path).unwrap();

    let entry = DictionaryEntry {
        readings: vec!["あける".to_owned()],
        gloss: "to open".to_owned(),
        tags: vec!["v1".to_owned()],
    };
    builder.add("あける", entry.clone()).unwrap();

    let metadata = DictionaryMetadata {
        name: "reopen test".to_owned(),
        author: "tomokao".to_owned(),
        version: Version::new(0, 1, 0),
        homepage_url: None,
        update_url: Some("https://example.invalid/update".to_owned()),
        notes: String::new(),
    };
    let dict = builder.build(metadata.clone()).unwrap();
    assert_eq!(dict.file_path(), path.as_str());
    drop(dict);

    let reopened = CDBDictionary::open(&path, metadata.clone()).unwrap();
    assert_eq!(reopened.get("あける"), vec![entry]);
    assert!(reopened.get("ひらく").is_empty());
    assert_eq!(reopened.get_metadata(), &metadata);
}

#[test]
fn cdb_builder_reports_io_error() {
    let r = CDBDictionaryBuilder::new("/nonexistent-dir-for-cdb-test/db");
    assert!(r.is_err());
}
