use yomisama::cdb_dict::CDBDictionaryBuilder;
use yomisama::dictionary::DictionaryEntry;
use yomisama::importer::{Error, JMDictSimplifiedImporter};
use yomisama::memory::HashMapDictionaryBuilder;
use yomisama::storage::Dictionary;

const JMDICT_TEXT: &str = r#"{
"version": "3.5.0",
"languages": ["eng"],
"commonOnly": false,
"dictDate": "2023-12-04",
"dictRevisions": ["1.09","1.08","1.07","1.06","1.05","1.04"],
"tags": {"v5uru":"Godan verb - Uru old class verb (old form of Eru)","v2g-s":"Nidan verb (lower class) with 'gu' ending (archaic)","dei":"deity"},
"words": [
{"id":"1000320","kanji":[{"common":false,"text":"彼処","tags":["rK"]},{"common":false,"text":"彼所","tags":["rK"]}],"kana":[{"common":true,"text":"あそこ","tags":[],"appliesToKanji":["*"]},{"common":false,"text":"あすこ","tags":[],"appliesToKanji":["*"]},{"common":false,"text":"かしこ","tags":[],"appliesToKanji":["*"]},{"common":false,"text":"アソコ","tags":[],"appliesToKanji":[]},{"common":false,"text":"あしこ","tags":["ok"],"appliesToKanji":["*"]},{"common":false,"text":"あこ","tags":["ok"],"appliesToKanji":["*"]}],"sense":[{"partOfSpeech":["pn"],"appliesToKanji":["*"],"appliesToKana":["*"],"related":[["どこ",1],["ここ",1],["そこ",1]],"antonym":[],"field":[],"dialect":[],"misc":["uk"],"info":["place physically distant from both speaker and listener"],"languageSource":[],"gloss":[{"lang":"eng","gender":null,"type":null,"text":"there"},{"lang":"eng","gender":null,"type":null,"text":"over there"},{"lang":"eng","gender":null,"type":null,"text":"that place"},{"lang":"eng","gender":null,"type":null,"text":"yonder"},{"lang":"eng","gender":null,"type":null,"text":"you-know-where"}]},{"partOfSpeech":["n"],"appliesToKanji":["*"],"appliesToKana":["あそこ","あすこ","アソコ"],"related":[],"antonym":[],"field":[],"dialect":[],"misc":["col","uk","euph"],"info":[],"languageSource":[],"gloss":[{"lang":"eng","gender":null,"type":null,"text":"genitals"},{"lang":"eng","gender":null,"type":null,"text":"private parts"},{"lang":"eng","gender":null,"type":null,"text":"nether regions"}]},{"partOfSpeech":["n"],"appliesToKanji":["*"],"appliesToKana":["*"],"related":[["あれほど"]],"antonym":[],"field":[],"dialect":[],"misc":["uk"],"info":["something psychologically distant from both speaker and listener"],"languageSource":[],"gloss":[{"lang":"eng","gender":null,"type":null,"text":"that far"},{"lang":"eng","gender":null,"type":null,"text":"that much"},{"lang":"eng","gender":null,"type":null,"text":"that point"}]}]},
{"id":"1000360","kanji":[],"kana":[{"common":true,"text":"あっさり","tags":[],"appliesToKanji":["*"]},{"common":false,"text":"アッサリ","tags":[],"appliesToKanji":["*"]}],"sense":[{"partOfSpeech":["adv","adv-to","vs"],"appliesToKanji":["*"],"appliesToKana":["*"],"related":[],"antonym":[],"field":[],"dialect":[],"misc":["on-mim"],"info":[],"languageSource":[],"gloss":[{"lang":"eng","gender":null,"type":null,"text":"easily"},{"lang":"eng","gender":null,"type":null,"text":"readily"},{"lang":"eng","gender":null,"type":null,"text":"quickly"},{"lang":"eng","gender":null,"type":null,"text":"flatly (refuse)"}]},{"partOfSpeech":["adv","adv-to","vs"],"appliesToKanji":["*"],"appliesToKana":["*"],"related":[],"antonym":[],"field":[],"dialect":[],"misc":["on-mim"],"info":[],"languageSource":[],"gloss":[{"lang":"eng","gender":null,"type":null,"text":"lightly (seasoned food, applied make-up, etc.)"},{"lang":"eng","gender":null,"type":null,"text":"plainly"},{"lang":"eng","gender":null,"type":null,"text":"simply"}]}]},
{"id":"1000390","kanji":[{"common":true,"text":"あっという間に","tags":[]},{"common":false,"text":"あっと言う間に","tags":[]},{"common":false,"text":"アッという間に","tags":["sK"]},{"common":false,"text":"アッと言う間に","tags":["sK"]},{"common":false,"text":"あっとゆう間に","tags":["sK"]},{"common":false,"text":"アッとゆう間に","tags":["sK"]}],"kana":[{"common":true,"text":"あっというまに","tags":[],"appliesToKanji":["*"]}],"sense":[{"partOfSpeech":["exp","adv"],"appliesToKanji":["*"],"appliesToKana":["*"],"related":[],"antonym":[],"field":[],"dialect":[],"misc":[],"info":[],"languageSource":[],"gloss":[{"lang":"eng","gender":null,"type":null,"text":"in an instant"},{"lang":"eng","gender":null,"type":null,"text":"in a flash"},{"lang":"eng","gender":null,"type":null,"text":"in the blink of an eye"},{"lang":"eng","gender":null,"type":null,"text":"in no time at all"},{"lang":"eng","gender":null,"type":null,"text":"just like that"}]}]}
]}
"#;

fn owned(texts: &[&str]) -> Vec<String> {
    texts.iter().map(|t| (*t).to_string()).collect()
}

#[test]
fn jmdict_simplified_basic() {
    let temp_dir = tempfile::tempdir().expect("could not create temp dir");
    let path = temp_dir
        .path()
        .join("jmdict-simplified-test-basic")
        .to_str()
        .expect("cdb database path is not valid utf-8")
        .to_owned();

    let dict_builder = CDBDictionaryBuilder::new(&path).unwrap();
    let jmdict = JMDictSimplifiedImporter::import_slice(
        JMDICT_TEXT.as_bytes(),
        dict_builder,
        Default::default(),
    )
    .expect("error while importing dictionary file");

    let full_kana = owned(&["あそこ", "あすこ", "かしこ", "あしこ", "あこ"]);
    let expected = vec![
        DictionaryEntry {
            readings: full_kana.clone(),
            gloss: "there\nover there\nthat place\nyonder\nyou-know-where".to_owned(),
            tags: owned(&["uk", "pn"]),
        },
        DictionaryEntry {
            readings: full_kana.clone(),
            gloss: "genitals\nprivate parts\nnether regions".to_owned(),
            tags: owned(&["col", "uk", "euph", "n"]),
        },
        DictionaryEntry {
            readings: full_kana.clone(),
            gloss: "that far\nthat much\nthat point".to_owned(),
            tags: owned(&["uk", "n"]),
        },
    ];
    assert_eq!(jmdict.get("彼処"), expected);
}

#[test]
fn import_reading_keys_carry_single_reading() {
    let temp_dir = tempfile::tempdir().expect("could not create temp dir");
    let path = temp_dir
        .path()
        .join("jmdict-readings")
        .to_str()
        .unwrap()
        .to_owned();

    let dict_builder = CDBDictionaryBuilder::new(&path).unwrap();
    let jmdict = JMDictSimplifiedImporter::import_slice(
        JMDICT_TEXT.as_bytes(),
        dict_builder,
        Default::default(),
    )
    .unwrap();

    // The word has three senses, all wildcarded over the kana, so the
    // reading key gets one entry per sense, each with that reading alone.
    let found = jmdict.get("あすこ");
    assert_eq!(found.len(), 3);
    for entry in &found {
        assert_eq!(entry.readings, owned(&["あすこ"]));
    }

    // A reading outside a sense's explicit appliesToKana list gets no
    // entry for that sense: かしこ is named by the two wildcarded senses
    // only.
    let restricted = jmdict.get("かしこ");
    assert_eq!(restricted.len(), 2);
    assert_eq!(
        restricted[0].gloss,
        "there\nover there\nthat place\nyonder\nyou-know-where"
    );
    assert_eq!(restricted[1].gloss, "that far\nthat much\nthat point");
}

#[test]
fn import_unknown_top_level_field_is_schema_error() {
    let text = r#"{"version": "3.5.0", "surprise": 1, "words": []}"#;
    let builder = HashMapDictionaryBuilder::new();
    let r = JMDictSimplifiedImporter::import_slice(text.as_bytes(), builder, Default::default());
    assert!(matches!(r, Err(Error::Schema)));
}

#[test]
fn import_malformed_json_is_schema_error() {
    let text = r#"{"version": "3.5.0", "words": ["#;
    let builder = HashMapDictionaryBuilder::new();
    let r = JMDictSimplifiedImporter::import_slice(text.as_bytes(), builder, Default::default());
    assert!(matches!(r, Err(Error::Schema)));
}

#[test]
fn import_empty_words() {
    let text = r#"{"version": "3.5.0", "words": []}"#;
    let builder = HashMapDictionaryBuilder::new();
    let dict =
        JMDictSimplifiedImporter::import_slice(text.as_bytes(), builder, Default::default())
            .unwrap();
    assert!(dict.get("あそこ").is_empty());
}

#[test]
fn import_string_escapes() {
    let text = r#"{"words": [
        {"kanji":[],"kana":[{"text":"a\u3042\n\"","appliesToKanji":["*"]}],
         "sense":[{"appliesToKana":["*"],"appliesToKanji":[],"dialect":[],"field":[],
                   "misc":[],"partOfSpeech":[],"info":[],
                   "gloss":[{"text":"pair \uD83D\uDE00 done"}]}]}
    ]}"#;
    let builder = HashMapDictionaryBuilder::new();
    let dict =
        JMDictSimplifiedImporter::import_slice(text.as_bytes(), builder, Default::default())
            .unwrap();
    let key = "a\u{3042}\n\"";
    let found = dict.get(key);
    assert_eq!(found.len(), 1);
    assert_eq!(found[0].gloss, "pair \u{1F600} done");
    assert_eq!(found[0].readings, vec![key.to_string()]);
}

#[test]
fn import_duplicate_word_member_is_schema_error() {
    let text = r#"{"words": [
        {"kana":[{"text":"あ","appliesToKanji":["*"]}],
         "kana":[{"text":"い","appliesToKanji":["*"]}],
         "kanji":[],
         "sense":[]}
    ]}"#;
    let builder = HashMapDictionaryBuilder::new();
    let r = JMDictSimplifiedImporter::import_slice(text.as_bytes(), builder, Default::default());
    assert!(matches!(r, Err(Error::Schema)));
}

#[test]
fn import_malformed_number_in_skipped_field_is_schema_error() {
    let text = r#"{"words": [
        {"kanji":[],"kana":[{"text":"あ","appliesToKanji":["*"]}],
         "sense":[{"appliesToKana":["*"],"appliesToKanji":[],"dialect":[],"field":[],
                   "misc":[],"partOfSpeech":[],"info":[],
                   "related":[1..2],
                   "gloss":[{"text":"x"}]}]}
    ]}"#;
    let builder = HashMapDictionaryBuilder::new();
    let r = JMDictSimplifiedImporter::import_slice(text.as_bytes(), builder, Default::default());
    assert!(matches!(r, Err(Error::Schema)));
}

#[test]
fn import_number_tokens_in_skipped_fields() {
    let text = r#"{"words": [
        {"kanji":[],"kana":[{"text":"あ","appliesToKanji":["*"]}],
         "sense":[{"appliesToKana":["*"],"appliesToKanji":[],"dialect":[],"field":[],
                   "misc":[],"partOfSpeech":[],"info":[],
                   "related":[0, -1, 2.5, 1e9, -0.25E-3],
                   "gloss":[{"text":"x"}]}]}
    ]}"#;
    let builder = HashMapDictionaryBuilder::new();
    let dict =
        JMDictSimplifiedImporter::import_slice(text.as_bytes(), builder, Default::default())
            .unwrap();
    assert_eq!(dict.get("あ").len(), 1);
}
