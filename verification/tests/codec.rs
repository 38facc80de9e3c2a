use yomisama::dictionary::{DictionaryEntry, Error};

#[test]
fn dict_entry_serialization() {
    let dict_entry = DictionaryEntry {
        readings: vec!["あける".to_owned()],
        gloss: "to open (a door, etc.), to unwrap (e.g. parcel, package), to unlock".to_owned(),
        tags: vec!["P".to_owned(), "v1".to_owned(), "vt".to_owned()],
    };

    let serialized = dict_entry.serialize().expect("serialization error");
    let deserialized = DictionaryEntry::deserialize(&serialized)
        .expect("serialized data should not have invalid utf-8");

    assert_eq!(dict_entry, deserialized);
}

#[test]
fn dict_entry_fast_serialization() {
    let dict_entry = DictionaryEntry {
        readings: vec!["あける".to_owned()],
        gloss: "to open (a door, etc.), to unwrap (e.g. parcel, package), to unlock".to_owned(),
        tags: vec!["P".to_owned(), "v1".to_owned(), "vt".to_owned()],
    };

    let serialized = dict_entry.serialize_fast();
    let deserialized = DictionaryEntry::deserialize_fast(&serialized);

    assert_eq!(dict_entry, deserialized);
}

#[test]
fn codec_round_trips_empty_entry() {
    let entry = DictionaryEntry { readings: vec![], gloss: String::new(), tags: vec![] };
    let bytes = entry.serialize_fast();
    let back = DictionaryEntry::deserialize(&bytes).unwrap();
    assert_eq!(entry, back);
}

#[test]
fn codec_is_deterministic() {
    let entry = DictionaryEntry {
        readings: vec!["あそこ".to_owned(), "かしこ".to_owned()],
        gloss: "there".to_owned(),
        tags: vec!["pn".to_owned()],
    };
    assert_eq!(entry.serialize_fast(), entry.serialize_fast());
}

#[test]
fn codec_layout_exact() {
    let entry = DictionaryEntry {
        readings: vec!["a".to_owned()],
        gloss: "b".to_owned(),
        tags: vec![],
    };
    let mut expected: Vec<u8> = Vec::new();
    expected.extend_from_slice(&1u64.to_le_bytes()); // one reading
    expected.extend_from_slice(&1u64.to_le_bytes()); // one byte of text
    expected.push(b'a');
    expected.extend_from_slice(&1u64.to_le_bytes()); // one byte of gloss
    expected.push(b'b');
    expected.extend_from_slice(&0u64.to_le_bytes()); // no tags
    assert_eq!(entry.serialize_fast(), expected);
}

#[test]
fn codec_rejects_garbage() {
    let r = DictionaryEntry::deserialize(&[0xff, 0x01, 0x02]);
    assert!(matches!(r, Err(Error::CorruptEntry)));
}

#[test]
fn codec_rejects_truncated_encoding() {
    let entry = DictionaryEntry {
        readings: vec!["abc".to_owned()],
        gloss: "defg".to_owned(),
        tags: vec![],
    };
    let bytes = entry.serialize_fast();
    let r = DictionaryEntry::deserialize(&bytes[..bytes.len() - 1]);
    assert!(matches!(r, Err(Error::CorruptEntry)));
}

#[test]
fn codec_rejects_trailing_bytes() {
    let entry = DictionaryEntry {
        readings: vec!["abc".to_owned()],
        gloss: "defg".to_owned(),
        tags: vec![],
    };
    let mut bytes = entry.serialize_fast();
    bytes.push(0);
    let r = DictionaryEntry::deserialize(&bytes);
    assert!(matches!(r, Err(Error::CorruptEntry)));
}
