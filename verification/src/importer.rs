//! The streaming importer: turns a structured bilingual dictionary export
//! into dictionary records, one word at a time, and feeds them to a
//! [`DictionaryBuilder`] without ever holding the parsed word list.
//!
//! This module holds the word data model and the per-sense derivation; the
//! JSON reading lives in [`crate::json`].

use vstd::prelude::*;
use vstd::utf8::encode_utf8;

use crate::dictionary::{DictionaryEntry, EntryModel};
use crate::memory::bytes_eq;
use crate::metadata::DictionaryMetadata;
use crate::storage::{lemma_filter_map_push, ContentsModel, Dictionary, DictionaryBuilder};

verus! {

broadcast use vstd::seq_lib::group_seq_properties;

/// One written form of a word.
pub struct KanjiForm {
    pub text: String,
}

/// One reading of a word, with the written forms it applies to: either an
/// explicit list, or a list whose first element is the literal wildcard,
/// standing for all of the word's written forms.
pub struct KanaForm {
    pub text: String,
    pub applies_to_kanji: Vec<String>,
}

/// One sense of a word: its applicability lists (same wildcard convention)
/// and its tag and gloss texts.
pub struct Sense {
    pub applies_to_kana: Vec<String>,
    pub applies_to_kanji: Vec<String>,
    pub dialect: Vec<String>,
    pub field: Vec<String>,
    pub misc: Vec<String>,
    pub part_of_speech: Vec<String>,
    pub gloss: Vec<String>,
    pub info: Vec<String>,
}

/// One word record of the source document.
pub struct Word {
    pub kanji: Vec<KanjiForm>,
    pub kana: Vec<KanaForm>,
    pub sense: Vec<Sense>,
}

impl View for KanjiForm {
    type V = Seq<char>;

    open spec fn view(&self) -> Seq<char> {
        self.text@
    }
}

impl DeepView for KanjiForm {
    type V = Seq<char>;

    open spec fn deep_view(&self) -> Seq<char> {
        self.text@
    }
}

/// The mathematical value of a [`KanaForm`].
#[verifier::ext_equal]
pub struct KanaModel {
    pub text: Seq<char>,
    pub applies_to_kanji: Seq<Seq<char>>,
}

impl View for KanaForm {
    type V = KanaModel;

    open spec fn view(&self) -> KanaModel {
        KanaModel { text: self.text@, applies_to_kanji: self.applies_to_kanji.deep_view() }
    }
}

impl DeepView for KanaForm {
    type V = KanaModel;

    open spec fn deep_view(&self) -> KanaModel {
        self.view()
    }
}

/// The mathematical value of a [`Sense`].
#[verifier::ext_equal]
pub struct SenseModel {
    pub applies_to_kana: Seq<Seq<char>>,
    pub applies_to_kanji: Seq<Seq<char>>,
    pub dialect: Seq<Seq<char>>,
    pub field: Seq<Seq<char>>,
    pub misc: Seq<Seq<char>>,
    pub part_of_speech: Seq<Seq<char>>,
    pub gloss: Seq<Seq<char>>,
    pub info: Seq<Seq<char>>,
}

impl View for Sense {
    type V = SenseModel;

    open spec fn view(&self) -> SenseModel {
        SenseModel {
            applies_to_kana: self.applies_to_kana.deep_view(),
            applies_to_kanji: self.applies_to_kanji.deep_view(),
            dialect: self.dialect.deep_view(),
            field: self.field.deep_view(),
            misc: self.misc.deep_view(),
            part_of_speech: self.part_of_speech.deep_view(),
            gloss: self.gloss.deep_view(),
            info: self.info.deep_view(),
        }
    }
}

impl DeepView for Sense {
    type V = SenseModel;

    open spec fn deep_view(&self) -> SenseModel {
        self.view()
    }
}

/// The mathematical value of a [`Word`]: the written-form texts, the
/// readings, the senses.
#[verifier::ext_equal]
pub struct WordModel {
    pub kanji: Seq<Seq<char>>,
    pub kana: Seq<KanaModel>,
    pub sense: Seq<SenseModel>,
}

impl View for Word {
    type V = WordModel;

    open spec fn view(&self) -> WordModel {
        WordModel {
            kanji: self.kanji.deep_view(),
            kana: self.kana.deep_view(),
            sense: self.sense.deep_view(),
        }
    }
}

impl DeepView for Word {
    type V = WordModel;

    open spec fn deep_view(&self) -> WordModel {
        self.view()
    }
}

/// The applicability wildcard: the text `*`, standing for every form.
pub open spec fn wildcard() -> Seq<char> {
    seq!['*']
}

/// Resolves an applicability list: a list opening with the wildcard stands
/// for all of the word's forms; any other list is taken as given.
pub open spec fn resolve(applies: Seq<Seq<char>>, all: Seq<Seq<char>>) -> Seq<Seq<char>> {
    if applies.len() > 0 && applies[0] == wildcard() {
        all
    } else {
        applies
    }
}

/// The flattened tag list of a sense: dialect, field, misc, part of
/// speech, in exactly that order.
pub open spec fn sense_tags(s: SenseModel) -> Seq<Seq<char>> {
    s.dialect + s.field + s.misc + s.part_of_speech
}

/// The gloss texts of a sense joined with newlines.
pub open spec fn joined_gloss(texts: Seq<Seq<char>>) -> Seq<char>
    decreases texts.len(),
{
    if texts.len() == 0 {
        Seq::empty()
    } else if texts.len() == 1 {
        texts[0]
    } else {
        texts[0] + seq!['\n'] + joined_gloss(texts.drop_first())
    }
}

/// Whether a reading applies to the written form `kanji_text`: its own
/// applicability list is wildcarded or names the form explicitly.
pub open spec fn kana_applies_to(k: KanaModel, kanji_text: Seq<char>) -> bool {
    ||| (k.applies_to_kanji.len() > 0 && k.applies_to_kanji[0] == wildcard())
    ||| k.applies_to_kanji.contains(kanji_text)
}

pub open spec fn applies_pred(kanji_text: Seq<char>) -> spec_fn(KanaModel) -> bool {
    |k: KanaModel| kana_applies_to(k, kanji_text)
}

pub open spec fn kana_text() -> spec_fn(KanaModel) -> Seq<char> {
    |k: KanaModel| k.text
}

/// The cross-referenced readings of one written form: every reading of
/// the word whose own applicability is wildcarded or names the form.
pub open spec fn readings_for_kanji(kana: Seq<KanaModel>, kanji_text: Seq<char>) -> Seq<Seq<char>> {
    kana.filter(applies_pred(kanji_text)).map_values(kana_text())
}

/// The record one resolved reading yields: keyed by the reading, with the
/// reading alone in the entry.
pub open spec fn kana_pair(gloss: Seq<char>, tags: Seq<Seq<char>>) -> spec_fn(Seq<char>) -> (
    Seq<u8>,
    EntryModel,
) {
    |r: Seq<char>| (encode_utf8(r), EntryModel { readings: seq![r], gloss, tags })
}

/// The record one resolved written form yields: keyed by the form, with
/// its cross-referenced readings in the entry.
pub open spec fn kanji_pair(kana: Seq<KanaModel>, gloss: Seq<char>, tags: Seq<Seq<char>>) -> spec_fn(
    Seq<char>,
) -> (Seq<u8>, EntryModel) {
    |kj: Seq<char>| (
        encode_utf8(kj),
        EntryModel { readings: readings_for_kanji(kana, kj), gloss, tags },
    )
}

/// Every record one sense yields, for a word with the given written-form
/// texts and readings: one record per resolved reading, then one per
/// resolved written form, all sharing the sense's joined gloss and
/// flattened tags.
pub open spec fn sense_pairs(
    kanji: Seq<Seq<char>>,
    kana: Seq<KanaModel>,
    s: SenseModel,
) -> ContentsModel {
    let gloss = joined_gloss(s.gloss);
    let tags = sense_tags(s);
    let kana_list = resolve(s.applies_to_kana, kana.map_values(kana_text()));
    let kanji_list = resolve(s.applies_to_kanji, kanji);
    kana_list.map_values(kana_pair(gloss, tags)) + kanji_list.map_values(
        kanji_pair(kana, gloss, tags),
    )
}

/// Every record a run of senses yields, in sense order.
pub open spec fn senses_pairs(
    kanji: Seq<Seq<char>>,
    kana: Seq<KanaModel>,
    senses: Seq<SenseModel>,
) -> ContentsModel
    decreases senses.len(),
{
    if senses.len() == 0 {
        Seq::empty()
    } else {
        senses_pairs(kanji, kana, senses.drop_last()) + sense_pairs(kanji, kana, senses.last())
    }
}

/// Every record a word yields: its senses' records, in sense order.
pub open spec fn word_pairs(w: WordModel) -> ContentsModel {
    senses_pairs(w.kanji, w.kana, w.sense)
}

/// Every record a word sequence yields, in word order.
pub open spec fn words_pairs(ws: Seq<WordModel>) -> ContentsModel
    decreases ws.len(),
{
    if ws.len() == 0 {
        Seq::empty()
    } else {
        words_pairs(ws.drop_last()) + word_pairs(ws.last())
    }
}

/// Compares two texts.
fn str_eq(a: &str, b: &str) -> (r: bool)
    ensures
        r <==> a@ == b@,
{
    let r = bytes_eq(a.as_bytes(), b.as_bytes());
    proof {
        if encode_utf8(a@) == encode_utf8(b@) {
            crate::codec::lemma_encode_utf8_inj(a@, b@);
        }
    }
    r
}

/// Whether a text is the applicability wildcard.
fn is_wildcard(s: &str) -> (r: bool)
    ensures
        r <==> s@ == wildcard(),
{
    proof {
        reveal_strlit("*");
        assert(("*")@ =~= wildcard());
    }
    str_eq(s, "*")
}

/// Whether a text list contains a text.
fn list_contains(list: &Vec<String>, s: &str) -> (r: bool)
    ensures
        r <==> list.deep_view().contains(s@),
{
    let mut i: usize = 0;
    while i < list.len()
        invariant
            i <= list.len(),
            forall|j: int| 0 <= j < i ==> list.deep_view()[j] != s@,
    decreases list.len() - i,
    {
        if str_eq(list[i].as_str(), s) {
            proof {
                assert(list.deep_view()[i as int] == s@);
            }
            return true;
        }
        i += 1;
    }
    false
}

/// A copy of a text list.
fn clone_strings(v: &Vec<String>) -> (r: Vec<String>)
    ensures
        r.deep_view() == v.deep_view(),
{
    let mut r: Vec<String> = Vec::new();
    let mut i: usize = 0;
    while i < v.len()
        invariant
            i <= v.len(),
            r@.len() == i,
            forall|j: int| 0 <= j < i ==> r.deep_view()[j] == v.deep_view()[j],
        decreases v.len() - i,
    {
        r.push(v[i].clone());
        i += 1;
    }
    proof {
        assert(r.deep_view() =~= v.deep_view());
    }
    r
}

/// A text list extended by a copy of another.
fn append_strings(dst: &mut Vec<String>, src: &Vec<String>)
    ensures
        final(dst).deep_view() == old(dst).deep_view() + src.deep_view(),
{
    let mut i: usize = 0;
    while i < src.len()
        invariant
            i <= src.len(),
            dst@.len() == old(dst)@.len() + i,
            forall|j: int|
                0 <= j < old(dst)@.len() ==> dst.deep_view()[j] == old(dst).deep_view()[j],
            forall|j: int|
                0 <= j < i ==> dst.deep_view()[old(dst)@.len() + j] == src.deep_view()[j],
        decreases src.len() - i,
    {
        dst.push(src[i].clone());
        i += 1;
    }
    proof {
        assert(final(dst).deep_view() =~= old(dst).deep_view() + src.deep_view());
    }
}

/// The texts of a word's readings, in order.
fn kana_texts(kana: &Vec<KanaForm>) -> (r: Vec<String>)
    ensures
        r.deep_view() == kana.deep_view().map_values(kana_text()),
{
    let mut r: Vec<String> = Vec::new();
    let mut i: usize = 0;
    while i < kana.len()
        invariant
            i <= kana.len(),
            r@.len() == i,
            forall|j: int|
                0 <= j < i ==> r.deep_view()[j] == (#[trigger] kana.deep_view()[j]).text,
        decreases kana.len() - i,
    {
        r.push(kana[i].text.clone());
        i += 1;
    }
    proof {
        assert(r.deep_view() =~= kana.deep_view().map_values(kana_text()));
    }
    r
}

/// The texts of a word's written forms, in order.
fn kanji_texts(kanji: &Vec<KanjiForm>) -> (r: Vec<String>)
    ensures
        r.deep_view() == kanji.deep_view(),
{
    let mut r: Vec<String> = Vec::new();
    let mut i: usize = 0;
    while i < kanji.len()
        invariant
            i <= kanji.len(),
            r@.len() == i,
            forall|j: int| 0 <= j < i ==> r.deep_view()[j] == kanji.deep_view()[j],
        decreases kanji.len() - i,
    {
        r.push(kanji[i].text.clone());
        i += 1;
    }
    proof {
        assert(r.deep_view() =~= kanji.deep_view());
    }
    r
}

/// The gloss texts joined with newlines, as [`joined_gloss`] gives them.
fn join_gloss(texts: &Vec<String>) -> (r: String)
    ensures
        r@ == joined_gloss(texts.deep_view()),
{
    let mut r = String::new();
    let mut i: usize = 0;
    while i < texts.len()
        invariant
            i <= texts.len(),
            r@ == joined_gloss(texts.deep_view().take(i as int)),
        decreases texts.len() - i,
    {
        if i > 0 {
            r.append("\n");
        }
        r.append(texts[i].as_str());
        proof {
            reveal_strlit("\n");
            lemma_joined_gloss_push(texts.deep_view().take(i as int), texts.deep_view()[i as int]);
            assert(texts.deep_view().take(i + 1) =~= texts.deep_view().take(i as int).push(
                texts.deep_view()[i as int],
            ));
            assert(("\n")@ =~= seq!['\n']);
        }
        i += 1;
    }
    proof {
        assert(texts.deep_view().take(texts@.len() as int) =~= texts.deep_view());
    }
    r
}

/// Emits every record of one sense into the builder: the flattened tags
/// and the joined gloss are computed once, the applicability lists are
/// resolved against the word's forms, and one record goes in per resolved
/// reading and per resolved written form. A failed `add` aborts at once.
pub fn process_sense<DB: DictionaryBuilder>(builder: &mut DB, word: &Word, sense: &Sense) -> (r:
    Result<(), DB::Error>)
    requires
        old(builder).inv(),
    ensures
        r is Ok ==> final(builder).inv() && final(builder).contents() == old(builder).contents()
            + sense_pairs(word@.kanji, word@.kana, sense@),
{
    let ghost start = old(builder).contents();
    let ghost gl = joined_gloss(sense@.gloss);
    let ghost tg = sense_tags(sense@);
    let mut tags: Vec<String> = Vec::new();
    append_strings(&mut tags, &sense.dialect);
    append_strings(&mut tags, &sense.field);
    append_strings(&mut tags, &sense.misc);
    append_strings(&mut tags, &sense.part_of_speech);
    proof {
        assert(tags.deep_view() =~= tg);
    }
    let gloss = join_gloss(&sense.gloss);
    let kana_list: Vec<String> = if sense.applies_to_kana.len() > 0 && is_wildcard(
        sense.applies_to_kana[0].as_str(),
    ) {
        kana_texts(&word.kana)
    } else {
        clone_strings(&sense.applies_to_kana)
    };
    let ghost klv = resolve(sense@.applies_to_kana, word@.kana.map_values(kana_text()));
    proof {
        assert(kana_list.deep_view() == klv);
    }
    let kanji_list: Vec<String> = if sense.applies_to_kanji.len() > 0 && is_wildcard(
        sense.applies_to_kanji[0].as_str(),
    ) {
        kanji_texts(&word.kanji)
    } else {
        clone_strings(&sense.applies_to_kanji)
    };
    let ghost kjv = resolve(sense@.applies_to_kanji, word@.kanji);
    proof {
        assert(kanji_list.deep_view() == kjv);
    }
    let mut i: usize = 0;
    while i < kana_list.len()
        invariant
            i <= kana_list.len(),
            builder.inv(),
            gloss@ == gl,
            tags.deep_view() == tg,
            kana_list.deep_view() == klv,
            builder.contents() == start + klv.take(i as int).map_values(kana_pair(gl, tg)),
        decreases kana_list.len() - i,
    {
        let entry = DictionaryEntry {
            readings: vec![kana_list[i].clone()],
            gloss: gloss.clone(),
            tags: clone_strings(&tags),
        };
        proof {
            assert(entry@.readings =~= seq![klv[i as int]]);
            assert(entry@ =~= kana_pair(gl, tg)(klv[i as int]).1);
        }
        match builder.add(kana_list[i].as_str(), entry) {
            Ok(()) => {},
            Err(e) => {
                return Err(e);
            },
        }
        proof {
            assert(klv.take(i + 1) =~= klv.take(i as int).push(klv[i as int]));
            assert(klv.take(i + 1).map_values(kana_pair(gl, tg)) =~= klv.take(
                i as int,
            ).map_values(kana_pair(gl, tg)).push(kana_pair(gl, tg)(klv[i as int])));
            assert(builder.contents() =~= start + klv.take(i + 1).map_values(kana_pair(gl, tg)));
        }
        i += 1;
    }
    proof {
        assert(klv.take(klv.len() as int) =~= klv);
    }
    let ghost mid = start + klv.map_values(kana_pair(gl, tg));
    let mut j: usize = 0;
    while j < kanji_list.len()
        invariant
            j <= kanji_list.len(),
            builder.inv(),
            gloss@ == gl,
            tags.deep_view() == tg,
            kanji_list.deep_view() == kjv,
            builder.contents() == mid + kjv.take(j as int).map_values(
                kanji_pair(word@.kana, gl, tg),
            ),
        decreases kanji_list.len() - j,
    {
        let readings = readings_applying_to(&word.kana, kanji_list[j].as_str());
        let entry = DictionaryEntry {
            readings,
            gloss: gloss.clone(),
            tags: clone_strings(&tags),
        };
        proof {
            assert(entry@ =~= kanji_pair(word@.kana, gl, tg)(kjv[j as int]).1);
        }
        match builder.add(kanji_list[j].as_str(), entry) {
            Ok(()) => {},
            Err(e) => {
                return Err(e);
            },
        }
        proof {
            assert(kjv.take(j + 1) =~= kjv.take(j as int).push(kjv[j as int]));
            assert(kjv.take(j + 1).map_values(kanji_pair(word@.kana, gl, tg)) =~= kjv.take(
                j as int,
            ).map_values(kanji_pair(word@.kana, gl, tg)).push(
                kanji_pair(word@.kana, gl, tg)(kjv[j as int]),
            ));
            assert(builder.contents() =~= mid + kjv.take(j + 1).map_values(
                kanji_pair(word@.kana, gl, tg),
            ));
        }
        j += 1;
    }
    proof {
        assert(kjv.take(kjv.len() as int) =~= kjv);
        assert(builder.contents() =~= start + sense_pairs(word@.kanji, word@.kana, sense@));
    }
    Ok(())
}

/// The texts of the readings that apply to the written form `kanji_text`:
/// wildcarded readings and readings that name the form, in reading order.
fn readings_applying_to(kana: &Vec<KanaForm>, kanji_text: &str) -> (r: Vec<String>)
    ensures
        r.deep_view() == readings_for_kanji(kana.deep_view(), kanji_text@),
{
    let ghost kjv = kanji_text@;
    let mut r: Vec<String> = Vec::new();
    proof {
        assert(kana.deep_view().take(0) =~= Seq::<KanaModel>::empty());
        assert(readings_for_kanji(kana.deep_view().take(0), kjv) =~= Seq::<Seq<char>>::empty())
            by {
            reveal_with_fuel(Seq::filter, 1);
        }
    }
    let mut i: usize = 0;
    while i < kana.len()
        invariant
            i <= kana.len(),
            kjv == kanji_text@,
            r.deep_view() == readings_for_kanji(kana.deep_view().take(i as int), kjv),
        decreases kana.len() - i,
    {
        let ghost k = kana.deep_view()[i as int];
        proof {
            assert(kana.deep_view().take(i + 1) =~= kana.deep_view().take(i as int).push(k));
            lemma_filter_map_push(kana.deep_view().take(i as int), applies_pred(kjv), kana_text(), k);
        }
        let form = &kana[i];
        let applies = if form.applies_to_kanji.len() > 0 && is_wildcard(
            form.applies_to_kanji[0].as_str(),
        ) {
            true
        } else {
            list_contains(&form.applies_to_kanji, kanji_text)
        };
        proof {
            assert(applies == kana_applies_to(k, kjv));
        }
        if applies {
            r.push(form.text.clone());
            proof {
                assert(r.deep_view() =~= readings_for_kanji(kana.deep_view().take(i + 1), kjv));
            }
        }
        i += 1;
    }
    proof {
        assert(kana.deep_view().take(kana@.len() as int) =~= kana.deep_view());
    }
    r
}

/// Emits every record of one word: each sense in order, derived as soon
/// as the word is complete. A failed `add` aborts at once.
pub fn process_word<DB: DictionaryBuilder>(builder: &mut DB, word: &Word) -> (r: Result<
    (),
    DB::Error,
>)
    requires
        old(builder).inv(),
    ensures
        r is Ok ==> final(builder).inv() && final(builder).contents() == old(builder).contents()
            + word_pairs(word@),
{
    let ghost start = old(builder).contents();
    proof {
        assert(senses_pairs(word@.kanji, word@.kana, word@.sense.take(0)) =~= Seq::empty()) by {
            assert(word@.sense.take(0) =~= Seq::<SenseModel>::empty());
        }
        assert(start + senses_pairs(word@.kanji, word@.kana, word@.sense.take(0)) =~= start);
    }
    let mut i: usize = 0;
    while i < word.sense.len()
        invariant
            i <= word.sense.len(),
            builder.inv(),
            builder.contents() == start + senses_pairs(
                word@.kanji,
                word@.kana,
                word@.sense.take(i as int),
            ),
        decreases word.sense.len() - i,
    {
        match process_sense(builder, word, &word.sense[i]) {
            Ok(()) => {},
            Err(e) => {
                return Err(e);
            },
        }
        proof {
            let senses = word@.sense;
            assert(senses.take(i + 1).drop_last() =~= senses.take(i as int));
            assert(senses.take(i + 1).last() == senses[i as int]);
            assert(builder.contents() =~= start + senses_pairs(
                word@.kanji,
                word@.kana,
                senses.take(i + 1),
            ));
        }
        i += 1;
    }
    proof {
        assert(word@.sense.take(word@.sense.len() as int) =~= word@.sense);
    }
    Ok(())
}

// The word readers below mirror the generic JSON readers' pattern: each
// carries a spec function over the bytes stating which model value and
// end position it yields, or that the bytes break the expected shape.
// Object mirrors thread the required members found so far through an
// accumulator; a required member seen twice is an error, as the readers
// make it.
/// The members of a written form object from `pos` (at least one left),
/// with the `text` found so far.
pub(crate) open spec fn spec_kanji_tail(data: Seq<u8>, pos: int, text: Option<Seq<char>>) -> Option<
    (Option<Seq<char>>, int),
>
    decreases data.len() - pos,
{
    match crate::json::spec_string(data, pos) {
        Some((key, q)) => match crate::json::spec_expect(data, q, 0x3a) {
            Some(q2) => {
                let step: Option<(Option<Seq<char>>, int)> = if key == ("text")@ {
                    if text is Some {
                        None
                    } else {
                        match crate::json::spec_string(data, q2) {
                            Some((s, q3)) => Some((Some(s), q3)),
                            None => None,
                        }
                    }
                } else {
                    match crate::json::spec_skip_value(data, q2) {
                        Some(q3) => Some((text, q3)),
                        None => None,
                    }
                };
                match step {
                    Some((text2, q3)) => match crate::json::spec_sep(data, q3, 0x7d) {
                        Some((true, q4)) => if pos < q4 <= data.len() {
                            spec_kanji_tail(data, q4, text2)
                        } else {
                            None
                        },
                        Some((false, q4)) => Some((text2, q4)),
                        None => None,
                    },
                    None => None,
                }
            },
            None => None,
        },
        None => None,
    }
}

/// One written form object, behind any whitespace: its `text`.
pub(crate) open spec fn spec_kanji_object(data: Seq<u8>, pos: int) -> Option<(Seq<char>, int)> {
    match crate::json::spec_expect(data, pos, 0x7b) {
        Some(p) => match crate::json::spec_peek(data, p) {
            Some((b, _)) => if b == 0x7d {
                None
            } else {
                match spec_kanji_tail(data, p, None) {
                    Some((Some(t), e)) => Some((t, e)),
                    _ => None,
                }
            },
            None => None,
        },
        None => None,
    }
}

/// The members of a reading object from `pos` (at least one left), with
/// the `text` and `appliesToKanji` found so far.
pub(crate) open spec fn spec_kana_tail(
    data: Seq<u8>,
    pos: int,
    text: Option<Seq<char>>,
    applies: Option<Seq<Seq<char>>>,
) -> Option<(Option<Seq<char>>, Option<Seq<Seq<char>>>, int)>
    decreases data.len() - pos,
{
    match crate::json::spec_string(data, pos) {
        Some((key, q)) => match crate::json::spec_expect(data, q, 0x3a) {
            Some(q2) => {
                let step: Option<(Option<Seq<char>>, Option<Seq<Seq<char>>>, int)> = if key == (
                "text")@ {
                    if text is Some {
                        None
                    } else {
                        match crate::json::spec_string(data, q2) {
                            Some((s, q3)) => Some((Some(s), applies, q3)),
                            None => None,
                        }
                    }
                } else if key == ("appliesToKanji")@ {
                    if applies is Some {
                        None
                    } else {
                        match crate::json::spec_string_array(data, q2) {
                            Some((l, q3)) => Some((text, Some(l), q3)),
                            None => None,
                        }
                    }
                } else {
                    match crate::json::spec_skip_value(data, q2) {
                        Some(q3) => Some((text, applies, q3)),
                        None => None,
                    }
                };
                match step {
                    Some((text2, applies2, q3)) => match crate::json::spec_sep(data, q3, 0x7d) {
                        Some((true, q4)) => if pos < q4 <= data.len() {
                            spec_kana_tail(data, q4, text2, applies2)
                        } else {
                            None
                        },
                        Some((false, q4)) => Some((text2, applies2, q4)),
                        None => None,
                    },
                    None => None,
                }
            },
            None => None,
        },
        None => None,
    }
}

/// One reading object, behind any whitespace.
pub(crate) open spec fn spec_kana_object(data: Seq<u8>, pos: int) -> Option<(KanaModel, int)> {
    match crate::json::spec_expect(data, pos, 0x7b) {
        Some(p) => match crate::json::spec_peek(data, p) {
            Some((b, _)) => if b == 0x7d {
                None
            } else {
                match spec_kana_tail(data, p, None, None) {
                    Some((Some(t), Some(a), e)) => Some(
                        (KanaModel { text: t, applies_to_kanji: a }, e),
                    ),
                    _ => None,
                }
            },
            None => None,
        },
        None => None,
    }
}

/// The members of a gloss object from `pos` (at least one left), with the
/// `text` found so far.
pub(crate) open spec fn spec_gloss_tail(data: Seq<u8>, pos: int, text: Option<Seq<char>>) -> Option<
    (Option<Seq<char>>, int),
>
    decreases data.len() - pos,
{
    match crate::json::spec_string(data, pos) {
        Some((key, q)) => match crate::json::spec_expect(data, q, 0x3a) {
            Some(q2) => {
                let step: Option<(Option<Seq<char>>, int)> = if key == ("text")@ {
                    if text is Some {
                        None
                    } else {
                        match crate::json::spec_string(data, q2) {
                            Some((s, q3)) => Some((Some(s), q3)),
                            None => None,
                        }
                    }
                } else {
                    match crate::json::spec_skip_value(data, q2) {
                        Some(q3) => Some((text, q3)),
                        None => None,
                    }
                };
                match step {
                    Some((text2, q3)) => match crate::json::spec_sep(data, q3, 0x7d) {
                        Some((true, q4)) => if pos < q4 <= data.len() {
                            spec_gloss_tail(data, q4, text2)
                        } else {
                            None
                        },
                        Some((false, q4)) => Some((text2, q4)),
                        None => None,
                    },
                    None => None,
                }
            },
            None => None,
        },
        None => None,
    }
}

/// One gloss object, behind any whitespace: its `text`.
pub(crate) open spec fn spec_gloss_object(data: Seq<u8>, pos: int) -> Option<(Seq<char>, int)> {
    match crate::json::spec_expect(data, pos, 0x7b) {
        Some(p) => match crate::json::spec_peek(data, p) {
            Some((b, _)) => if b == 0x7d {
                None
            } else {
                match spec_gloss_tail(data, p, None) {
                    Some((Some(t), e)) => Some((t, e)),
                    _ => None,
                }
            },
            None => None,
        },
        None => None,
    }
}

/// The required members of a sense object found so far.
#[verifier::ext_equal]
pub struct SenseAcc {
    pub applies_to_kana: Option<Seq<Seq<char>>>,
    pub applies_to_kanji: Option<Seq<Seq<char>>>,
    pub dialect: Option<Seq<Seq<char>>>,
    pub field: Option<Seq<Seq<char>>>,
    pub misc: Option<Seq<Seq<char>>>,
    pub part_of_speech: Option<Seq<Seq<char>>>,
    pub gloss: Option<Seq<Seq<char>>>,
    pub info: Option<Seq<Seq<char>>>,
}

/// One member of a sense object at `pos`: the accumulator after it, and
/// the position past its value.
pub(crate) open spec fn spec_sense_member(data: Seq<u8>, pos: int, acc: SenseAcc) -> Option<
    (SenseAcc, int),
> {
    match crate::json::spec_string(data, pos) {
        Some((key, q)) => match crate::json::spec_expect(data, q, 0x3a) {
            Some(q2) => if key == ("appliesToKana")@ {
                if acc.applies_to_kana is Some {
                None
            } else {
                match crate::json::spec_string_array(data, q2) {
                    Some((l, q3)) => Some((SenseAcc { applies_to_kana: Some(l), ..acc }, q3)),
                    None => None,
                }
            }
            } else if key == ("appliesToKanji")@ {
                if acc.applies_to_kanji is Some {
                None
            } else {
                match crate::json::spec_string_array(data, q2) {
                    Some((l, q3)) => Some((SenseAcc { applies_to_kanji: Some(l), ..acc }, q3)),
                    None => None,
                }
            }
            } else if key == ("dialect")@ {
                if acc.dialect is Some {
                None
            } else {
                match crate::json::spec_string_array(data, q2) {
                    Some((l, q3)) => Some((SenseAcc { dialect: Some(l), ..acc }, q3)),
                    None => None,
                }
            }
            } else if key == ("field")@ {
                if acc.field is Some {
                None
            } else {
                match crate::json::spec_string_array(data, q2) {
                    Some((l, q3)) => Some((SenseAcc { field: Some(l), ..acc }, q3)),
                    None => None,
                }
            }
            } else if key == ("misc")@ {
                if acc.misc is Some {
                None
            } else {
                match crate::json::spec_string_array(data, q2) {
                    Some((l, q3)) => Some((SenseAcc { misc: Some(l), ..acc }, q3)),
                    None => None,
                }
            }
            } else if key == ("partOfSpeech")@ {
                if acc.part_of_speech is Some {
                None
            } else {
                match crate::json::spec_string_array(data, q2) {
                    Some((l, q3)) => Some((SenseAcc { part_of_speech: Some(l), ..acc }, q3)),
                    None => None,
                }
            }
            } else if key == ("info")@ {
                if acc.info is Some {
                None
            } else {
                match crate::json::spec_string_array(data, q2) {
                    Some((l, q3)) => Some((SenseAcc { info: Some(l), ..acc }, q3)),
                    None => None,
                }
            }
            } else if key == ("gloss")@ {
                if acc.gloss is Some {
                None
            } else {
                match spec_gloss_array(data, q2) {
                    Some((l, q3)) => Some((SenseAcc { gloss: Some(l), ..acc }, q3)),
                    None => None,
                }
            }
            } else {
                match crate::json::spec_skip_value(data, q2) {
                    Some(q3) => Some((acc, q3)),
                    None => None,
                }
            },
            None => None,
        },
        None => None,
    }
}

/// The members of a sense object from `pos` (at least one left).
pub(crate) open spec fn spec_sense_tail(data: Seq<u8>, pos: int, acc: SenseAcc) -> Option<
    (SenseAcc, int),
>
    decreases data.len() - pos,
{
    match spec_sense_member(data, pos, acc) {
        Some((acc2, q3)) => match crate::json::spec_sep(data, q3, 0x7d) {
            Some((true, q4)) => if pos < q4 <= data.len() {
                spec_sense_tail(data, q4, acc2)
            } else {
                None
            },
            Some((false, q4)) => Some((acc2, q4)),
            None => None,
        },
        None => None,
    }
}

/// One sense object, behind any whitespace; every required member must be
/// present.
pub(crate) open spec fn spec_sense_object(data: Seq<u8>, pos: int) -> Option<(SenseModel, int)> {
    match crate::json::spec_expect(data, pos, 0x7b) {
        Some(p) => match crate::json::spec_peek(data, p) {
            Some((b, _)) => if b == 0x7d {
                None
            } else {
                match spec_sense_tail(
                    data,
                    p,
                    SenseAcc {
                        applies_to_kana: None,
                        applies_to_kanji: None,
                        dialect: None,
                        field: None,
                        misc: None,
                        part_of_speech: None,
                        gloss: None,
                        info: None,
                    },
                ) {
                    Some((acc, e)) => match (acc.applies_to_kana, acc.applies_to_kanji,
                    acc.dialect, acc.field, acc.misc, acc.part_of_speech, acc.info, acc.gloss) {
                        (
                            Some(applies_to_kana),
                            Some(applies_to_kanji),
                            Some(dialect),
                            Some(field),
                            Some(misc),
                            Some(part_of_speech),
                            Some(info),
                            Some(gloss),
                        ) => Some(
                            (
                                SenseModel {
                                    applies_to_kana,
                                    applies_to_kanji,
                                    dialect,
                                    field,
                                    misc,
                                    part_of_speech,
                                    gloss,
                                    info,
                                },
                                e,
                            ),
                        ),
                        _ => None,
                    },
                    None => None,
                }
            },
            None => None,
        },
        None => None,
    }
}

/// The rest of a gloss array from `pos` (at least one element left).
pub(crate) open spec fn spec_gloss_array_tail(
    data: Seq<u8>,
    pos: int,
    acc: Seq<Seq<char>>,
) -> Option<(Seq<Seq<char>>, int)>
    decreases data.len() - pos,
{
    match spec_gloss_object(data, pos) {
        Some((t, q)) => match crate::json::spec_sep(data, q, 0x5d) {
            Some((true, q2)) => if pos < q2 <= data.len() {
                spec_gloss_array_tail(data, q2, acc.push(t))
            } else {
                None
            },
            Some((false, q2)) => Some((acc.push(t), q2)),
            None => None,
        },
        None => None,
    }
}

/// An array of gloss objects, behind any whitespace: their texts.
pub(crate) open spec fn spec_gloss_array(data: Seq<u8>, pos: int) -> Option<(Seq<Seq<char>>, int)> {
    match crate::json::spec_expect(data, pos, 0x5b) {
        Some(p) => match crate::json::spec_peek(data, p) {
            Some((b, q)) => if b == 0x5d {
                Some((Seq::empty(), q + 1))
            } else {
                spec_gloss_array_tail(data, p, Seq::empty())
            },
            None => None,
        },
        None => None,
    }
}

/// The rest of a written form array from `pos` (at least one element
/// left).
pub(crate) open spec fn spec_kanji_array_tail(
    data: Seq<u8>,
    pos: int,
    acc: Seq<Seq<char>>,
) -> Option<(Seq<Seq<char>>, int)>
    decreases data.len() - pos,
{
    match spec_kanji_object(data, pos) {
        Some((t, q)) => match crate::json::spec_sep(data, q, 0x5d) {
            Some((true, q2)) => if pos < q2 <= data.len() {
                spec_kanji_array_tail(data, q2, acc.push(t))
            } else {
                None
            },
            Some((false, q2)) => Some((acc.push(t), q2)),
            None => None,
        },
        None => None,
    }
}

/// An array of written form objects, behind any whitespace.
pub(crate) open spec fn spec_kanji_array(data: Seq<u8>, pos: int) -> Option<(Seq<Seq<char>>, int)> {
    match crate::json::spec_expect(data, pos, 0x5b) {
        Some(p) => match crate::json::spec_peek(data, p) {
            Some((b, q)) => if b == 0x5d {
                Some((Seq::empty(), q + 1))
            } else {
                spec_kanji_array_tail(data, p, Seq::empty())
            },
            None => None,
        },
        None => None,
    }
}

/// The rest of a reading array from `pos` (at least one element left).
pub(crate) open spec fn spec_kana_array_tail(
    data: Seq<u8>,
    pos: int,
    acc: Seq<KanaModel>,
) -> Option<(Seq<KanaModel>, int)>
    decreases data.len() - pos,
{
    match spec_kana_object(data, pos) {
        Some((k, q)) => match crate::json::spec_sep(data, q, 0x5d) {
            Some((true, q2)) => if pos < q2 <= data.len() {
                spec_kana_array_tail(data, q2, acc.push(k))
            } else {
                None
            },
            Some((false, q2)) => Some((acc.push(k), q2)),
            None => None,
        },
        None => None,
    }
}

/// An array of reading objects, behind any whitespace.
pub(crate) open spec fn spec_kana_array(data: Seq<u8>, pos: int) -> Option<(Seq<KanaModel>, int)> {
    match crate::json::spec_expect(data, pos, 0x5b) {
        Some(p) => match crate::json::spec_peek(data, p) {
            Some((b, q)) => if b == 0x5d {
                Some((Seq::empty(), q + 1))
            } else {
                spec_kana_array_tail(data, p, Seq::empty())
            },
            None => None,
        },
        None => None,
    }
}

/// The rest of a sense array from `pos` (at least one element left).
pub(crate) open spec fn spec_sense_array_tail(
    data: Seq<u8>,
    pos: int,
    acc: Seq<SenseModel>,
) -> Option<(Seq<SenseModel>, int)>
    decreases data.len() - pos,
{
    match spec_sense_object(data, pos) {
        Some((sm, q)) => match crate::json::spec_sep(data, q, 0x5d) {
            Some((true, q2)) => if pos < q2 <= data.len() {
                spec_sense_array_tail(data, q2, acc.push(sm))
            } else {
                None
            },
            Some((false, q2)) => Some((acc.push(sm), q2)),
            None => None,
        },
        None => None,
    }
}

/// An array of sense objects, behind any whitespace.
pub(crate) open spec fn spec_sense_array(data: Seq<u8>, pos: int) -> Option<
    (Seq<SenseModel>, int),
> {
    match crate::json::spec_expect(data, pos, 0x5b) {
        Some(p) => match crate::json::spec_peek(data, p) {
            Some((b, q)) => if b == 0x5d {
                Some((Seq::empty(), q + 1))
            } else {
                spec_sense_array_tail(data, p, Seq::empty())
            },
            None => None,
        },
        None => None,
    }
}

/// The members of a word object from `pos` (at least one left), with the
/// required members found so far.
pub(crate) open spec fn spec_word_tail(
    data: Seq<u8>,
    pos: int,
    kanji: Option<Seq<Seq<char>>>,
    kana: Option<Seq<KanaModel>>,
    sense: Option<Seq<SenseModel>>,
) -> Option<(Option<Seq<Seq<char>>>, Option<Seq<KanaModel>>, Option<Seq<SenseModel>>, int)>
    decreases data.len() - pos,
{
    match crate::json::spec_string(data, pos) {
        Some((key, q)) => match crate::json::spec_expect(data, q, 0x3a) {
            Some(q2) => {
                let step: Option<
                    (Option<Seq<Seq<char>>>, Option<Seq<KanaModel>>, Option<Seq<SenseModel>>, int),
                > = if key == ("kanji")@ {
                    if kanji is Some {
                        None
                    } else {
                        match spec_kanji_array(data, q2) {
                            Some((l, q3)) => Some((Some(l), kana, sense, q3)),
                            None => None,
                        }
                    }
                } else if key == ("kana")@ {
                    if kana is Some {
                        None
                    } else {
                        match spec_kana_array(data, q2) {
                            Some((l, q3)) => Some((kanji, Some(l), sense, q3)),
                            None => None,
                        }
                    }
                } else if key == ("sense")@ {
                    if sense is Some {
                        None
                    } else {
                        match spec_sense_array(data, q2) {
                            Some((l, q3)) => Some((kanji, kana, Some(l), q3)),
                            None => None,
                        }
                    }
                } else {
                    match crate::json::spec_skip_value(data, q2) {
                        Some(q3) => Some((kanji, kana, sense, q3)),
                        None => None,
                    }
                };
                match step {
                    Some((kanji2, kana2, sense2, q3)) => match crate::json::spec_sep(
                        data,
                        q3,
                        0x7d,
                    ) {
                        Some((true, q4)) => if pos < q4 <= data.len() {
                            spec_word_tail(data, q4, kanji2, kana2, sense2)
                        } else {
                            None
                        },
                        Some((false, q4)) => Some((kanji2, kana2, sense2, q4)),
                        None => None,
                    },
                    None => None,
                }
            },
            None => None,
        },
        None => None,
    }
}

/// One word object, behind any whitespace; `kanji`, `kana` and `sense`
/// must all be present.
pub(crate) open spec fn spec_word(data: Seq<u8>, pos: int) -> Option<(WordModel, int)> {
    match crate::json::spec_expect(data, pos, 0x7b) {
        Some(p) => match crate::json::spec_peek(data, p) {
            Some((b, _)) => if b == 0x7d {
                None
            } else {
                match spec_word_tail(data, p, None, None, None) {
                    Some((Some(kanji), Some(kana), Some(sense), e)) => Some(
                        (WordModel { kanji, kana, sense }, e),
                    ),
                    _ => None,
                }
            },
            None => None,
        },
        None => None,
    }
}

/// The rest of the word array from `pos` (at least one word left).
pub(crate) open spec fn spec_words_tail(data: Seq<u8>, pos: int, acc: Seq<WordModel>) -> Option<
    (Seq<WordModel>, int),
>
    decreases data.len() - pos,
{
    match spec_word(data, pos) {
        Some((w, q)) => match crate::json::spec_sep(data, q, 0x5d) {
            Some((true, q2)) => if pos < q2 <= data.len() {
                spec_words_tail(data, q2, acc.push(w))
            } else {
                None
            },
            Some((false, q2)) => Some((acc.push(w), q2)),
            None => None,
        },
        None => None,
    }
}

/// The word array, behind any whitespace.
pub(crate) open spec fn spec_words(data: Seq<u8>, pos: int) -> Option<(Seq<WordModel>, int)> {
    match crate::json::spec_expect(data, pos, 0x5b) {
        Some(p) => match crate::json::spec_peek(data, p) {
            Some((b, q)) => if b == 0x5d {
                Some((Seq::empty(), q + 1))
            } else {
                spec_words_tail(data, p, Seq::empty())
            },
            None => None,
        },
        None => None,
    }
}

/// The top-level members from `pos` (at least one left): the words of
/// every `words` member so far in `acc`, the known scalar members
/// checked and dropped, any other member a schema error.
pub(crate) open spec fn spec_members_words(data: Seq<u8>, pos: int, acc: Seq<WordModel>) -> Option<
    Seq<WordModel>,
>
    decreases data.len() - pos,
{
    match crate::json::spec_string(data, pos) {
        Some((key, q)) => match crate::json::spec_expect(data, q, 0x3a) {
            Some(q2) => {
                let step: Option<(Seq<WordModel>, int)> = if key == ("version")@ || key == (
                "dictDate")@ {
                    match crate::json::spec_string(data, q2) {
                        Some((_, q3)) => Some((acc, q3)),
                        None => None,
                    }
                } else if key == ("languages")@ || key == ("dictRevisions")@ {
                    match crate::json::spec_string_array(data, q2) {
                        Some((_, q3)) => Some((acc, q3)),
                        None => None,
                    }
                } else if key == ("commonOnly")@ {
                    match crate::json::spec_bool(data, q2) {
                        Some((_, q3)) => Some((acc, q3)),
                        None => None,
                    }
                } else if key == ("tags")@ {
                    match crate::json::spec_string_map(data, q2) {
                        Some(q3) => Some((acc, q3)),
                        None => None,
                    }
                } else if key == ("words")@ {
                    match spec_words(data, q2) {
                        Some((ws, q3)) => Some((acc + ws, q3)),
                        None => None,
                    }
                } else {
                    None
                };
                match step {
                    Some((acc2, q3)) => match crate::json::spec_sep(data, q3, 0x7d) {
                        Some((true, q4)) => if pos < q4 <= data.len() {
                            spec_members_words(data, q4, acc2)
                        } else {
                            None
                        },
                        Some((false, _)) => Some(acc2),
                        None => None,
                    },
                    None => None,
                }
            },
            None => None,
        },
        None => None,
    }
}

/// The word list a source document holds: `None` when the document is not
/// a well-formed export — structurally invalid JSON, a missing or
/// ill-shaped required member, or an unknown top-level member.
pub closed spec fn doc_words(data: Seq<u8>) -> Option<Seq<WordModel>> {
    match crate::json::spec_expect(data, 0, 0x7b) {
        Some(p) => match crate::json::spec_peek(data, p) {
            Some((b, _)) => if b == 0x7d {
                Some(Seq::empty())
            } else {
                spec_members_words(data, p, Seq::empty())
            },
            None => None,
        },
        None => None,
    }
}

/// One written form object: `text` is required and may appear once;
/// anything else is skipped.
fn parse_kanji_object(data: &[u8], pos: usize) -> (r: Option<(KanjiForm, usize)>)
    requires
        pos <= data@.len(),
    ensures
        r matches Some(v) ==> pos < v.1 <= data@.len() && spec_kanji_object(data@, pos as int)
            == Some((v.0@, v.1 as int)),
        r is None ==> spec_kanji_object(data@, pos as int) is None,
{
    let mut p = match crate::json::expect_byte(data, pos, 0x7b) {
        Some(v) => v,
        None => {
            return None;
        },
    };
    let ghost entry = p as int;
    let mut text: Option<String> = None;
    match crate::json::peek_byte(data, p) {
        Some((b, q)) => {
            if b == 0x7d {
                return None;
            }
        },
        None => {
            return None;
        },
    }
    loop
        invariant_except_break
            spec_kanji_tail(data@, entry, Option::None) == spec_kanji_tail(
                data@,
                p as int,
                text.deep_view(),
            ),
        invariant
            pos < p <= data@.len(),
            crate::json::spec_expect(data@, pos as int, 0x7b) == Some(entry),
            (crate::json::spec_peek(data@, entry) matches Some(v) && v.0 != 0x7d),
        ensures
            pos < p <= data@.len(),
            crate::json::spec_expect(data@, pos as int, 0x7b) == Some(entry),
            (crate::json::spec_peek(data@, entry) matches Some(v) && v.0 != 0x7d),
            spec_kanji_tail(data@, entry, Option::None) == Some((text.deep_view(), p as int)),
        decreases data@.len() - p,
    {
        let ghost p0 = p as int;
        let ghost t0 = text.deep_view();
        let (key, q) = match crate::json::parse_string(data, p) {
            Some(v) => v,
            None => {
                return None;
            },
        };
        let q2 = match crate::json::expect_byte(data, q, 0x3a) {
            Some(v) => v,
            None => {
                return None;
            },
        };
        let q3: usize;
        if str_eq(key.as_str(), "text") {
            if text.is_some() {
                return None;
            }
            let (s, q4) = match crate::json::parse_string(data, q2) {
                Some(v) => v,
                None => {
                    return None;
                },
            };
            text = Some(s);
            q3 = q4;
        } else {
            q3 = match crate::json::skip_value(data, q2) {
                Some(v) => v,
                None => {
                    return None;
                },
            };
        }
        let (more, q5) = match crate::json::element_sep(data, q3, 0x7d) {
            Some(v) => v,
            None => {
                return None;
            },
        };
        p = q5;
        if !more {
            proof {
                assert(spec_kanji_tail(data@, entry, Option::None) == Some(
                    (text.deep_view(), p as int),
                ));
            }
            break;
        }
        proof {
            assert(spec_kanji_tail(data@, p0, t0) == spec_kanji_tail(
                data@,
                p as int,
                text.deep_view(),
            ));
        }
    }
    match text {
        Some(t) => Some((KanjiForm { text: t }, p)),
        None => None,
    }
}

/// One reading object: `text` and `appliesToKanji` are required and may
/// appear once each; anything else is skipped.
fn parse_kana_object(data: &[u8], pos: usize) -> (r: Option<(KanaForm, usize)>)
    requires
        pos <= data@.len(),
    ensures
        r matches Some(v) ==> pos < v.1 <= data@.len() && spec_kana_object(data@, pos as int)
            == Some((v.0@, v.1 as int)),
        r is None ==> spec_kana_object(data@, pos as int) is None,
{
    let mut p = match crate::json::expect_byte(data, pos, 0x7b) {
        Some(v) => v,
        None => {
            return None;
        },
    };
    let ghost entry = p as int;
    let mut text: Option<String> = None;
    let mut applies: Option<Vec<String>> = None;
    match crate::json::peek_byte(data, p) {
        Some((b, q)) => {
            if b == 0x7d {
                return None;
            }
        },
        None => {
            return None;
        },
    }
    loop
        invariant_except_break
            spec_kana_tail(data@, entry, Option::None, Option::None) == spec_kana_tail(
                data@,
                p as int,
                text.deep_view(),
                applies.deep_view(),
            ),
        invariant
            pos < p <= data@.len(),
            crate::json::spec_expect(data@, pos as int, 0x7b) == Some(entry),
            (crate::json::spec_peek(data@, entry) matches Some(v) && v.0 != 0x7d),
        ensures
            pos < p <= data@.len(),
            spec_kana_tail(data@, entry, Option::None, Option::None) == Some(
                (text.deep_view(), applies.deep_view(), p as int),
            ),
            crate::json::spec_expect(data@, pos as int, 0x7b) == Some(entry),
            (crate::json::spec_peek(data@, entry) matches Some(v) && v.0 != 0x7d),
        decreases data@.len() - p,
    {
        let ghost p0 = p as int;
        let ghost t0 = text.deep_view();
        let ghost a0 = applies.deep_view();
        let (key, q) = match crate::json::parse_string(data, p) {
            Some(v) => v,
            None => {
                return None;
            },
        };
        let q2 = match crate::json::expect_byte(data, q, 0x3a) {
            Some(v) => v,
            None => {
                return None;
            },
        };
        let q3: usize;
        if str_eq(key.as_str(), "text") {
            if text.is_some() {
                return None;
            }
            let (s, q4) = match crate::json::parse_string(data, q2) {
                Some(v) => v,
                None => {
                    return None;
                },
            };
            text = Some(s);
            q3 = q4;
        } else if str_eq(key.as_str(), "appliesToKanji") {
            if applies.is_some() {
                return None;
            }
            let (l, q4) = match crate::json::parse_string_array(data, q2) {
                Some(v) => v,
                None => {
                    return None;
                },
            };
            applies = Some(l);
            q3 = q4;
        } else {
            q3 = match crate::json::skip_value(data, q2) {
                Some(v) => v,
                None => {
                    return None;
                },
            };
        }
        let (more, q5) = match crate::json::element_sep(data, q3, 0x7d) {
            Some(v) => v,
            None => {
                return None;
            },
        };
        p = q5;
        if !more {
            proof {
                assert(spec_kana_tail(data@, entry, Option::None, Option::None) == Some(
                    (text.deep_view(), applies.deep_view(), p as int),
                ));
            }
            break;
        }
        proof {
            assert(spec_kana_tail(data@, p0, t0, a0) == spec_kana_tail(
                data@,
                p as int,
                text.deep_view(),
                applies.deep_view(),
            ));
        }
    }
    match (text, applies) {
        (Some(t), Some(a)) => Some((KanaForm { text: t, applies_to_kanji: a }, p)),
        _ => None,
    }
}

/// One gloss object: `text` is required and may appear once; anything
/// else is skipped.
fn parse_gloss_object(data: &[u8], pos: usize) -> (r: Option<(String, usize)>)
    requires
        pos <= data@.len(),
    ensures
        r matches Some(v) ==> pos < v.1 <= data@.len() && spec_gloss_object(data@, pos as int)
            == Some((v.0@, v.1 as int)),
        r is None ==> spec_gloss_object(data@, pos as int) is None,
{
    let mut p = match crate::json::expect_byte(data, pos, 0x7b) {
        Some(v) => v,
        None => {
            return None;
        },
    };
    let ghost entry = p as int;
    let mut text: Option<String> = None;
    match crate::json::peek_byte(data, p) {
        Some((b, q)) => {
            if b == 0x7d {
                return None;
            }
        },
        None => {
            return None;
        },
    }
    loop
        invariant_except_break
            spec_gloss_tail(data@, entry, Option::None) == spec_gloss_tail(
                data@,
                p as int,
                text.deep_view(),
            ),
        invariant
            pos < p <= data@.len(),
            crate::json::spec_expect(data@, pos as int, 0x7b) == Some(entry),
            (crate::json::spec_peek(data@, entry) matches Some(v) && v.0 != 0x7d),
        ensures
            pos < p <= data@.len(),
            spec_gloss_tail(data@, entry, Option::None) == Some((text.deep_view(), p as int)),
            crate::json::spec_expect(data@, pos as int, 0x7b) == Some(entry),
            (crate::json::spec_peek(data@, entry) matches Some(v) && v.0 != 0x7d),
        decreases data@.len() - p,
    {
        let ghost p0 = p as int;
        let ghost t0 = text.deep_view();
        let (key, q) = match crate::json::parse_string(data, p) {
            Some(v) => v,
            None => {
                return None;
            },
        };
        let q2 = match crate::json::expect_byte(data, q, 0x3a) {
            Some(v) => v,
            None => {
                return None;
            },
        };
        let q3: usize;
        if str_eq(key.as_str(), "text") {
            if text.is_some() {
                return None;
            }
            let (s, q4) = match crate::json::parse_string(data, q2) {
                Some(v) => v,
                None => {
                    return None;
                },
            };
            text = Some(s);
            q3 = q4;
        } else {
            q3 = match crate::json::skip_value(data, q2) {
                Some(v) => v,
                None => {
                    return None;
                },
            };
        }
        let (more, q5) = match crate::json::element_sep(data, q3, 0x7d) {
            Some(v) => v,
            None => {
                return None;
            },
        };
        p = q5;
        if !more {
            proof {
                assert(spec_gloss_tail(data@, entry, Option::None) == Some(
                    (text.deep_view(), p as int),
                ));
            }
            break;
        }
        proof {
            assert(spec_gloss_tail(data@, p0, t0) == spec_gloss_tail(
                data@,
                p as int,
                text.deep_view(),
            ));
        }
    }
    match text {
        Some(t) => Some((t, p)),
        None => None,
    }
}

/// The required members of a sense object found so far, while it is read.
struct SensePartial {
    applies_to_kana: Option<Vec<String>>,
    applies_to_kanji: Option<Vec<String>>,
    dialect: Option<Vec<String>>,
    field: Option<Vec<String>>,
    misc: Option<Vec<String>>,
    part_of_speech: Option<Vec<String>>,
    gloss: Option<Vec<String>>,
    info: Option<Vec<String>>,
}

impl DeepView for SensePartial {
    type V = SenseAcc;

    closed spec fn deep_view(&self) -> SenseAcc {
        SenseAcc {
            applies_to_kana: self.applies_to_kana.deep_view(),
            applies_to_kanji: self.applies_to_kanji.deep_view(),
            dialect: self.dialect.deep_view(),
            field: self.field.deep_view(),
            misc: self.misc.deep_view(),
            part_of_speech: self.part_of_speech.deep_view(),
            gloss: self.gloss.deep_view(),
            info: self.info.deep_view(),
        }
    }
}

/// Reads one member of a sense object into the accumulator.
fn parse_sense_member(data: &[u8], pos: usize, acc: &mut SensePartial) -> (r: Option<usize>)
    requires
        pos <= data@.len(),
    ensures
        r matches Some(q) ==> pos < q <= data@.len() && spec_sense_member(
            data@,
            pos as int,
            old(acc).deep_view(),
        ) == Some((final(acc).deep_view(), q as int)),
        r is None ==> spec_sense_member(data@, pos as int, old(acc).deep_view()) is None,
{
    let (key, q) = match crate::json::parse_string(data, pos) {
        Some(v) => v,
        None => {
            return None;
        },
    };
    let q2 = match crate::json::expect_byte(data, q, 0x3a) {
        Some(v) => v,
        None => {
            return None;
        },
    };
    if str_eq(key.as_str(), "appliesToKana") {
        if acc.applies_to_kana.is_some() {
            return None;
        }
        match crate::json::parse_string_array(data, q2) {
            Some((l, q3)) => {
                acc.applies_to_kana = Some(l);
                proof {
                    assert(spec_sense_member(data@, pos as int, old(acc).deep_view())
                        matches Some(st) && st.0 =~= acc.deep_view() && st.1 == q3 as int);
                }
                Some(q3)
            },
            None => None,
        }
    } else if str_eq(key.as_str(), "appliesToKanji") {
        if acc.applies_to_kanji.is_some() {
            return None;
        }
        match crate::json::parse_string_array(data, q2) {
            Some((l, q3)) => {
                acc.applies_to_kanji = Some(l);
                proof {
                    assert(spec_sense_member(data@, pos as int, old(acc).deep_view())
                        matches Some(st) && st.0 =~= acc.deep_view() && st.1 == q3 as int);
                }
                Some(q3)
            },
            None => None,
        }
    } else if str_eq(key.as_str(), "dialect") {
        if acc.dialect.is_some() {
            return None;
        }
        match crate::json::parse_string_array(data, q2) {
            Some((l, q3)) => {
                acc.dialect = Some(l);
                proof {
                    assert(spec_sense_member(data@, pos as int, old(acc).deep_view())
                        matches Some(st) && st.0 =~= acc.deep_view() && st.1 == q3 as int);
                }
                Some(q3)
            },
            None => None,
        }
    } else if str_eq(key.as_str(), "field") {
        if acc.field.is_some() {
            return None;
        }
        match crate::json::parse_string_array(data, q2) {
            Some((l, q3)) => {
                acc.field = Some(l);
                proof {
                    assert(spec_sense_member(data@, pos as int, old(acc).deep_view())
                        matches Some(st) && st.0 =~= acc.deep_view() && st.1 == q3 as int);
                }
                Some(q3)
            },
            None => None,
        }
    } else if str_eq(key.as_str(), "misc") {
        if acc.misc.is_some() {
            return None;
        }
        match crate::json::parse_string_array(data, q2) {
            Some((l, q3)) => {
                acc.misc = Some(l);
                proof {
                    assert(spec_sense_member(data@, pos as int, old(acc).deep_view())
                        matches Some(st) && st.0 =~= acc.deep_view() && st.1 == q3 as int);
                }
                Some(q3)
            },
            None => None,
        }
    } else if str_eq(key.as_str(), "partOfSpeech") {
        if acc.part_of_speech.is_some() {
            return None;
        }
        match crate::json::parse_string_array(data, q2) {
            Some((l, q3)) => {
                acc.part_of_speech = Some(l);
                proof {
                    assert(spec_sense_member(data@, pos as int, old(acc).deep_view())
                        matches Some(st) && st.0 =~= acc.deep_view() && st.1 == q3 as int);
                }
                Some(q3)
            },
            None => None,
        }
    } else if str_eq(key.as_str(), "info") {
        if acc.info.is_some() {
            return None;
        }
        match crate::json::parse_string_array(data, q2) {
            Some((l, q3)) => {
                acc.info = Some(l);
                proof {
                    assert(spec_sense_member(data@, pos as int, old(acc).deep_view())
                        matches Some(st) && st.0 =~= acc.deep_view() && st.1 == q3 as int);
                }
                Some(q3)
            },
            None => None,
        }
    } else if str_eq(key.as_str(), "gloss") {
        if acc.gloss.is_some() {
            return None;
        }
        match parse_gloss_array(data, q2) {
            Some((l, q3)) => {
                acc.gloss = Some(l);
                proof {
                    assert(spec_sense_member(data@, pos as int, old(acc).deep_view())
                        matches Some(st) && st.0 =~= acc.deep_view() && st.1 == q3 as int);
                }
                Some(q3)
            },
            None => None,
        }
    } else {
        match crate::json::skip_value(data, q2) {
            Some(q3) => Some(q3),
            None => None,
        }
    }
}

/// One sense object: the applicability lists, the tag lists, the gloss
/// objects and the info texts are required and may appear once each;
/// anything else is skipped.
fn parse_sense_object(data: &[u8], pos: usize) -> (r: Option<(Sense, usize)>)
    requires
        pos <= data@.len(),
    ensures
        r matches Some(v) ==> pos < v.1 <= data@.len() && spec_sense_object(data@, pos as int)
            == Some((v.0@, v.1 as int)),
        r is None ==> spec_sense_object(data@, pos as int) is None,
{
    let mut p = match crate::json::expect_byte(data, pos, 0x7b) {
        Some(v) => v,
        None => {
            return None;
        },
    };
    let ghost entry = p as int;
    let mut acc = SensePartial {
        applies_to_kana: None,
        applies_to_kanji: None,
        dialect: None,
        field: None,
        misc: None,
        part_of_speech: None,
        gloss: None,
        info: None,
    };
    let ghost empty_acc = acc.deep_view();
    match crate::json::peek_byte(data, p) {
        Some((b, q)) => {
            if b == 0x7d {
                return None;
            }
        },
        None => {
            return None;
        },
    }
    loop
        invariant_except_break
            spec_sense_tail(data@, entry, empty_acc) == spec_sense_tail(
                data@,
                p as int,
                acc.deep_view(),
            ),
        invariant
            pos < p <= data@.len(),
            crate::json::spec_expect(data@, pos as int, 0x7b) == Some(entry),
            (crate::json::spec_peek(data@, entry) matches Some(v) && v.0 != 0x7d),
            empty_acc == (SenseAcc {
                applies_to_kana: Option::None,
                applies_to_kanji: Option::None,
                dialect: Option::None,
                field: Option::None,
                misc: Option::None,
                part_of_speech: Option::None,
                gloss: Option::None,
                info: Option::None,
            }),
        ensures
            pos < p <= data@.len(),
            spec_sense_tail(data@, entry, empty_acc) == Some((acc.deep_view(), p as int)),
            crate::json::spec_expect(data@, pos as int, 0x7b) == Some(entry),
            (crate::json::spec_peek(data@, entry) matches Some(v) && v.0 != 0x7d),
            empty_acc == (SenseAcc {
                applies_to_kana: Option::None,
                applies_to_kanji: Option::None,
                dialect: Option::None,
                field: Option::None,
                misc: Option::None,
                part_of_speech: Option::None,
                gloss: Option::None,
                info: Option::None,
            }),
        decreases data@.len() - p,
    {
        let ghost p0 = p as int;
        let ghost acc0 = acc.deep_view();
        let q3 = match parse_sense_member(data, p, &mut acc) {
            Some(v) => v,
            None => {
                return None;
            },
        };
        let (more, q5) = match crate::json::element_sep(data, q3, 0x7d) {
            Some(v) => v,
            None => {
                return None;
            },
        };
        p = q5;
        if !more {
            proof {
                assert(spec_sense_tail(data@, entry, empty_acc) == Some(
                    (acc.deep_view(), p as int),
                ));
            }
            break;
        }
        proof {
            assert(spec_sense_tail(data@, p0, acc0) == spec_sense_tail(
                data@,
                p as int,
                acc.deep_view(),
            ));
        }
    }
    let SensePartial {
        applies_to_kana,
        applies_to_kanji,
        dialect,
        field,
        misc,
        part_of_speech,
        gloss,
        info,
    } = acc;
    match (applies_to_kana, applies_to_kanji, dialect, field, misc, part_of_speech, info, gloss) {
        (
            Some(applies_to_kana),
            Some(applies_to_kanji),
            Some(dialect),
            Some(field),
            Some(misc),
            Some(part_of_speech),
            Some(info),
            Some(gloss),
        ) => Some(
            (
                Sense {
                    applies_to_kana,
                    applies_to_kanji,
                    dialect,
                    field,
                    misc,
                    part_of_speech,
                    gloss,
                    info,
                },
                p,
            ),
        ),
        _ => None,
    }
}

/// An array of gloss objects, reduced to their texts.
fn parse_gloss_array(data: &[u8], pos: usize) -> (r: Option<(Vec<String>, usize)>)
    requires
        pos <= data@.len(),
    ensures
        r matches Some(v) ==> pos < v.1 <= data@.len() && spec_gloss_array(data@, pos as int) == Some(
            (v.0.deep_view(), v.1 as int),
        ),
        r is None ==> spec_gloss_array(data@, pos as int) is None,
{
    let mut p = match crate::json::expect_byte(data, pos, 0x5b) {
        Some(v) => v,
        None => {
            return None;
        },
    };
    let mut out: Vec<String> = Vec::new();
    proof {
        assert(data@.len() == data.len());
    }
    match crate::json::peek_byte(data, p) {
        Some((b, q)) => {
            if b == 0x5d {
                proof {
                    assert(out.deep_view() =~= Seq::<Seq<char>>::empty());
                }
                return Some((out, q + 1));
            }
        },
        None => {
            return None;
        },
    }
    proof {
        assert(out.deep_view() =~= Seq::<Seq<char>>::empty());
    }
    loop
        invariant
            pos < p <= data@.len(),
            spec_gloss_array(data@, pos as int) == spec_gloss_array_tail(data@, p as int, out.deep_view()),
        decreases data@.len() - p,
    {
        let ghost p0 = p as int;
        let ghost acc0 = out.deep_view();
        let (t, q) = match parse_gloss_object(data, p) {
            Some(v) => v,
            None => {
                return None;
            },
        };
        out.push(t);
        proof {
            assert(out.deep_view() =~= acc0.push(t.deep_view()));
        }
        let (more, q2) = match crate::json::element_sep(data, q, 0x5d) {
            Some(v) => v,
            None => {
                return None;
            },
        };
        p = q2;
        if !more {
            proof {
                assert(spec_gloss_array_tail(data@, p0, acc0) == Some((out.deep_view(), p as int)));
            }
            return Some((out, p));
        }
        proof {
            assert(spec_gloss_array_tail(data@, p0, acc0) == spec_gloss_array_tail(data@, p as int, out.deep_view()));
        }
    }
}

/// An array of written form objects.
fn parse_kanji_array(data: &[u8], pos: usize) -> (r: Option<(Vec<KanjiForm>, usize)>)
    requires
        pos <= data@.len(),
    ensures
        r matches Some(v) ==> pos < v.1 <= data@.len() && spec_kanji_array(data@, pos as int) == Some(
            (v.0.deep_view(), v.1 as int),
        ),
        r is None ==> spec_kanji_array(data@, pos as int) is None,
{
    let mut p = match crate::json::expect_byte(data, pos, 0x5b) {
        Some(v) => v,
        None => {
            return None;
        },
    };
    let mut out: Vec<KanjiForm> = Vec::new();
    proof {
        assert(data@.len() == data.len());
    }
    match crate::json::peek_byte(data, p) {
        Some((b, q)) => {
            if b == 0x5d {
                proof {
                    assert(out.deep_view() =~= Seq::<Seq<char>>::empty());
                }
                return Some((out, q + 1));
            }
        },
        None => {
            return None;
        },
    }
    proof {
        assert(out.deep_view() =~= Seq::<Seq<char>>::empty());
    }
    loop
        invariant
            pos < p <= data@.len(),
            spec_kanji_array(data@, pos as int) == spec_kanji_array_tail(data@, p as int, out.deep_view()),
        decreases data@.len() - p,
    {
        let ghost p0 = p as int;
        let ghost acc0 = out.deep_view();
        let (k, q) = match parse_kanji_object(data, p) {
            Some(v) => v,
            None => {
                return None;
            },
        };
        out.push(k);
        proof {
            assert(out.deep_view() =~= acc0.push(k.deep_view()));
        }
        let (more, q2) = match crate::json::element_sep(data, q, 0x5d) {
            Some(v) => v,
            None => {
                return None;
            },
        };
        p = q2;
        if !more {
            proof {
                assert(spec_kanji_array_tail(data@, p0, acc0) == Some((out.deep_view(), p as int)));
            }
            return Some((out, p));
        }
        proof {
            assert(spec_kanji_array_tail(data@, p0, acc0) == spec_kanji_array_tail(data@, p as int, out.deep_view()));
        }
    }
}

/// An array of reading objects.
fn parse_kana_array(data: &[u8], pos: usize) -> (r: Option<(Vec<KanaForm>, usize)>)
    requires
        pos <= data@.len(),
    ensures
        r matches Some(v) ==> pos < v.1 <= data@.len() && spec_kana_array(data@, pos as int) == Some(
            (v.0.deep_view(), v.1 as int),
        ),
        r is None ==> spec_kana_array(data@, pos as int) is None,
{
    let mut p = match crate::json::expect_byte(data, pos, 0x5b) {
        Some(v) => v,
        None => {
            return None;
        },
    };
    let mut out: Vec<KanaForm> = Vec::new();
    proof {
        assert(data@.len() == data.len());
    }
    match crate::json::peek_byte(data, p) {
        Some((b, q)) => {
            if b == 0x5d {
                proof {
                    assert(out.deep_view() =~= Seq::<KanaModel>::empty());
                }
                return Some((out, q + 1));
            }
        },
        None => {
            return None;
        },
    }
    proof {
        assert(out.deep_view() =~= Seq::<KanaModel>::empty());
    }
    loop
        invariant
            pos < p <= data@.len(),
            spec_kana_array(data@, pos as int) == spec_kana_array_tail(data@, p as int, out.deep_view()),
        decreases data@.len() - p,
    {
        let ghost p0 = p as int;
        let ghost acc0 = out.deep_view();
        let (k, q) = match parse_kana_object(data, p) {
            Some(v) => v,
            None => {
                return None;
            },
        };
        out.push(k);
        proof {
            assert(out.deep_view() =~= acc0.push(k.deep_view()));
        }
        let (more, q2) = match crate::json::element_sep(data, q, 0x5d) {
            Some(v) => v,
            None => {
                return None;
            },
        };
        p = q2;
        if !more {
            proof {
                assert(spec_kana_array_tail(data@, p0, acc0) == Some((out.deep_view(), p as int)));
            }
            return Some((out, p));
        }
        proof {
            assert(spec_kana_array_tail(data@, p0, acc0) == spec_kana_array_tail(data@, p as int, out.deep_view()));
        }
    }
}

/// An array of sense objects.
fn parse_sense_array(data: &[u8], pos: usize) -> (r: Option<(Vec<Sense>, usize)>)
    requires
        pos <= data@.len(),
    ensures
        r matches Some(v) ==> pos < v.1 <= data@.len() && spec_sense_array(data@, pos as int) == Some(
            (v.0.deep_view(), v.1 as int),
        ),
        r is None ==> spec_sense_array(data@, pos as int) is None,
{
    let mut p = match crate::json::expect_byte(data, pos, 0x5b) {
        Some(v) => v,
        None => {
            return None;
        },
    };
    let mut out: Vec<Sense> = Vec::new();
    proof {
        assert(data@.len() == data.len());
    }
    match crate::json::peek_byte(data, p) {
        Some((b, q)) => {
            if b == 0x5d {
                proof {
                    assert(out.deep_view() =~= Seq::<SenseModel>::empty());
                }
                return Some((out, q + 1));
            }
        },
        None => {
            return None;
        },
    }
    proof {
        assert(out.deep_view() =~= Seq::<SenseModel>::empty());
    }
    loop
        invariant
            pos < p <= data@.len(),
            spec_sense_array(data@, pos as int) == spec_sense_array_tail(data@, p as int, out.deep_view()),
        decreases data@.len() - p,
    {
        let ghost p0 = p as int;
        let ghost acc0 = out.deep_view();
        let (s, q) = match parse_sense_object(data, p) {
            Some(v) => v,
            None => {
                return None;
            },
        };
        out.push(s);
        proof {
            assert(out.deep_view() =~= acc0.push(s.deep_view()));
        }
        let (more, q2) = match crate::json::element_sep(data, q, 0x5d) {
            Some(v) => v,
            None => {
                return None;
            },
        };
        p = q2;
        if !more {
            proof {
                assert(spec_sense_array_tail(data@, p0, acc0) == Some((out.deep_view(), p as int)));
            }
            return Some((out, p));
        }
        proof {
            assert(spec_sense_array_tail(data@, p0, acc0) == spec_sense_array_tail(data@, p as int, out.deep_view()));
        }
    }
}

/// One word object: `kana`, `kanji` and `sense` are required, anything
/// else (the id among it) is skipped.
fn parse_word(data: &[u8], pos: usize) -> (r: Option<(Word, usize)>)
    requires
        pos <= data@.len(),
    ensures
        r matches Some(v) ==> pos < v.1 <= data@.len() && spec_word(data@, pos as int) == Some(
            (v.0@, v.1 as int),
        ),
        r is None ==> spec_word(data@, pos as int) is None,
{
    let mut p = match crate::json::expect_byte(data, pos, 0x7b) {
        Some(v) => v,
        None => {
            return None;
        },
    };
    let ghost entry = p as int;
    let mut kanji: Option<Vec<KanjiForm>> = None;
    let mut kana: Option<Vec<KanaForm>> = None;
    let mut sense: Option<Vec<Sense>> = None;
    match crate::json::peek_byte(data, p) {
        Some((b, q)) => {
            if b == 0x7d {
                return None;
            }
        },
        None => {
            return None;
        },
    }
    loop
        invariant_except_break
            spec_word_tail(data@, entry, Option::None, Option::None, Option::None)
                == spec_word_tail(
                data@,
                p as int,
                kanji.deep_view(),
                kana.deep_view(),
                sense.deep_view(),
            ),
        invariant
            pos < p <= data@.len(),
            crate::json::spec_expect(data@, pos as int, 0x7b) == Some(entry),
            (crate::json::spec_peek(data@, entry) matches Some(v) && v.0 != 0x7d),
        ensures
            pos < p <= data@.len(),
            spec_word_tail(data@, entry, Option::None, Option::None, Option::None) == Some(
                (kanji.deep_view(), kana.deep_view(), sense.deep_view(), p as int),
            ),
            crate::json::spec_expect(data@, pos as int, 0x7b) == Some(entry),
            (crate::json::spec_peek(data@, entry) matches Some(v) && v.0 != 0x7d),
        decreases data@.len() - p,
    {
        let ghost p0 = p as int;
        let ghost kj0 = kanji.deep_view();
        let ghost kn0 = kana.deep_view();
        let ghost sn0 = sense.deep_view();
        let (key, q) = match crate::json::parse_string(data, p) {
            Some(v) => v,
            None => {
                return None;
            },
        };
        let q2 = match crate::json::expect_byte(data, q, 0x3a) {
            Some(v) => v,
            None => {
                return None;
            },
        };
        let q3: usize;
        if str_eq(key.as_str(), "kanji") {
            if kanji.is_some() {
                return None;
            }
            let (l, q4) = match parse_kanji_array(data, q2) {
                Some(v) => v,
                None => {
                    return None;
                },
            };
            kanji = Some(l);
            q3 = q4;
        } else if str_eq(key.as_str(), "kana") {
            if kana.is_some() {
                return None;
            }
            let (l, q4) = match parse_kana_array(data, q2) {
                Some(v) => v,
                None => {
                    return None;
                },
            };
            kana = Some(l);
            q3 = q4;
        } else if str_eq(key.as_str(), "sense") {
            if sense.is_some() {
                return None;
            }
            let (l, q4) = match parse_sense_array(data, q2) {
                Some(v) => v,
                None => {
                    return None;
                },
            };
            sense = Some(l);
            q3 = q4;
        } else {
            q3 = match crate::json::skip_value(data, q2) {
                Some(v) => v,
                None => {
                    return None;
                },
            };
        }
        let (more, q5) = match crate::json::element_sep(data, q3, 0x7d) {
            Some(v) => v,
            None => {
                return None;
            },
        };
        p = q5;
        if !more {
            proof {
                assert(spec_word_tail(data@, entry, Option::None, Option::None, Option::None)
                    == Some(
                    (kanji.deep_view(), kana.deep_view(), sense.deep_view(), p as int),
                ));
            }
            break;
        }
        proof {
            assert(spec_word_tail(data@, p0, kj0, kn0, sn0) == spec_word_tail(
                data@,
                p as int,
                kanji.deep_view(),
                kana.deep_view(),
                sense.deep_view(),
            ));
        }
    }
    match (kanji, kana, sense) {
        (Some(kanji), Some(kana), Some(sense)) => Some((Word { kanji, kana, sense }, p)),
        _ => None,
    }
}

/// Joining one more gloss text appends a newline and the text, except to
/// an empty join.
proof fn lemma_joined_gloss_push(texts: Seq<Seq<char>>, t: Seq<char>)
    ensures
        texts.len() == 0 ==> joined_gloss(texts.push(t)) == t,
        texts.len() > 0 ==> joined_gloss(texts.push(t)) == joined_gloss(texts) + seq!['\n'] + t,
    decreases texts.len(),
{
    if texts.len() == 0 {
        assert(texts.push(t)[0] == t);
    } else if texts.len() == 1 {
        assert(texts.push(t).drop_first() =~= seq![t]);
        assert(joined_gloss(seq![t]) == t);
        assert(joined_gloss(texts.push(t)) == texts[0] + seq!['\n'] + t);
    } else {
        assert(texts.push(t).drop_first() =~= texts.drop_first().push(t));
        lemma_joined_gloss_push(texts.drop_first(), t);
        assert(joined_gloss(texts.push(t)) =~= joined_gloss(texts) + seq!['\n'] + t);
    }
}

/// The records of two word runs, one after the other.
proof fn lemma_words_pairs_concat(a: Seq<WordModel>, b: Seq<WordModel>)
    ensures
        words_pairs(a + b) == words_pairs(a) + words_pairs(b),
    decreases b.len(),
{
    if b.len() == 0 {
        assert(a + b =~= a);
        assert(words_pairs(b) =~= Seq::empty());
        assert(words_pairs(a) + words_pairs(b) =~= words_pairs(a));
    } else {
        assert((a + b).drop_last() =~= a + b.drop_last());
        assert((a + b).last() == b.last());
        lemma_words_pairs_concat(a, b.drop_last());
        assert(words_pairs(a + b) =~= words_pairs(a) + words_pairs(b));
    }
}

/// An error from importing a dictionary source.
#[derive(Debug)]
pub enum Error<DBE> {
    /// The source file could not be read.
    DictFileIo(std::io::Error),
    /// The underlying builder refused a record; its error is carried
    /// through unchanged.
    DictBuilder(DBE),
    /// The source was structurally invalid JSON, held an unexpected
    /// top-level member, or broke the expected word shape.
    Schema,
}

/// The importer for the structured bilingual dictionary export format.
pub struct JMDictSimplifiedImporter {}

/// Reads the word array at `pos` and feeds every word's records to the
/// builder, one word at a time.
fn import_words<DB: DictionaryBuilder>(data: &[u8], pos: usize, builder: &mut DB) -> (r: Result<
    usize,
    Error<DB::Error>,
>)
    requires
        pos <= data@.len(),
        old(builder).inv(),
    ensures
        r matches Ok(p) ==> {
            &&& pos < p <= data@.len()
            &&& final(builder).inv()
            &&& (spec_words(data@, pos as int) matches Some(wsp) && wsp.1 == p as int
                && final(builder).contents() == old(builder).contents() + words_pairs(wsp.0))
        },
        r matches Err(e) && e is Schema ==> spec_words(data@, pos as int) is None,
        r matches Err(e) ==> !(e is DictFileIo),
{
    let ghost start = old(builder).contents();
    let mut p = match crate::json::expect_byte(data, pos, 0x5b) {
        Some(v) => v,
        None => {
            return Err(Error::Schema);
        },
    };
    let ghost entry = p as int;
    let ghost mut imported: Seq<WordModel> = Seq::empty();
    proof {
        assert(words_pairs(imported) =~= Seq::empty());
        assert(builder.contents() =~= start + words_pairs(imported));
        assert(data@.len() == data.len());
    }
    match crate::json::peek_byte(data, p) {
        Some((b, q)) => {
            if b == 0x5d {
                proof {
                    assert(builder.contents() == start + words_pairs(imported));
                }
                return Ok(q + 1);
            }
        },
        None => {
            return Err(Error::Schema);
        },
    }
    loop
        invariant
            pos < p <= data@.len(),
            builder.inv(),
            start == old(builder).contents(),
            builder.contents() == start + words_pairs(imported),
            crate::json::spec_expect(data@, pos as int, 0x5b) == Some(entry),
            (crate::json::spec_peek(data@, entry) matches Some(v) && v.0 != 0x5d),
            spec_words_tail(data@, entry, Seq::empty()) == spec_words_tail(
                data@,
                p as int,
                imported,
            ),
        decreases data@.len() - p,
    {
        let ghost p0 = p as int;
        let ghost acc0 = imported;
        let (word, q) = match parse_word(data, p) {
            Some(v) => v,
            None => {
                return Err(Error::Schema);
            },
        };
        match process_word(builder, &word) {
            Ok(()) => {},
            Err(e) => {
                return Err(Error::DictBuilder(e));
            },
        }
        proof {
            let extended = imported.push(word@);
            assert(extended.drop_last() =~= imported);
            assert(extended.last() == word@);
            assert(builder.contents() =~= start + words_pairs(extended));
            imported = extended;
        }
        let (more, q2) = match crate::json::element_sep(data, q, 0x5d) {
            Some(v) => v,
            None => {
                return Err(Error::Schema);
            },
        };
        p = q2;
        if !more {
            proof {
                assert(builder.contents() == start + words_pairs(imported));
                assert(spec_words_tail(data@, p0, acc0) == Some((imported, p as int)));
            }
            return Ok(p);
        }
        proof {
            assert(spec_words_tail(data@, p0, acc0) == spec_words_tail(
                data@,
                p as int,
                imported,
            ));
        }
    }
}

impl JMDictSimplifiedImporter {
    /// Imports one source document, already read into memory, into
    /// `dict_builder`, and builds the dictionary with `metadata`.
    ///
    /// The top level must hold only the known members — an unknown member
    /// is a schema error — and the word array is consumed incrementally:
    /// each word's records are derived and fed to the builder as soon as
    /// the word has been read, and the word is then dropped. On success
    /// the dictionary holds what the builder already held, followed by
    /// exactly the derived records of the document's words, in document
    /// order; a schema error comes only from a document that is not a
    /// well-formed export, and such a document never yields a dictionary.
    #[verifier::rlimit(100)]
    pub fn import_slice<DB: DictionaryBuilder>(
        data: &[u8],
        dict_builder: DB,
        metadata: DictionaryMetadata,
    ) -> (r: Result<DB::Dict, Error<DB::Error>>)
        requires
            dict_builder.inv(),
        ensures
            r matches Ok(d) ==> {
                &&& d.inv()
                &&& d.metadata_model() == metadata@
                &&& (doc_words(data@) matches Some(ws) && d.contents() == dict_builder.contents()
                    + words_pairs(ws))
            },
            r matches Err(e) && e is Schema ==> doc_words(data@) is None,
            (doc_words(data@) is None) ==> r is Err,
            r matches Err(e) ==> !(e is DictFileIo),
    {
        let mut builder = dict_builder;
        let ghost start = builder.contents();
        let ghost mut imported: Seq<WordModel> = Seq::empty();
        proof {
            assert(words_pairs(imported) =~= Seq::empty());
            assert(builder.contents() =~= start + words_pairs(imported));
        }
        let mut p = match crate::json::expect_byte(data, 0, 0x7b) {
            Some(v) => v,
            None => {
                return Err(Error::Schema);
            },
        };
        let ghost entry = p as int;
        let mut done = false;
        match crate::json::peek_byte(data, p) {
            Some((b, q)) => {
                if b == 0x7d {
                    done = true;
                }
            },
            None => {
                return Err(Error::Schema);
            },
        }
        while !done
            invariant
                0 < p <= data@.len(),
                builder.inv(),
                start == dict_builder.contents(),
                builder.contents() == start + words_pairs(imported),
                crate::json::spec_expect(data@, 0, 0x7b) == Some(entry),
                !done ==> (crate::json::spec_peek(data@, entry) matches Some(v) && v.0 != 0x7d),
                !done ==> spec_members_words(data@, entry, Seq::empty()) == spec_members_words(
                    data@,
                    p as int,
                    imported,
                ),
                done ==> doc_words(data@) == Some(imported),
            decreases data@.len() - p,
        {
            let ghost p0 = p as int;
            let ghost acc0 = imported;
            let (key, q) = match crate::json::parse_string(data, p) {
                Some(v) => v,
                None => {
                    return Err(Error::Schema);
                },
            };
            let q2 = match crate::json::expect_byte(data, q, 0x3a) {
                Some(v) => v,
                None => {
                    return Err(Error::Schema);
                },
            };
            let q3: usize;
            if str_eq(key.as_str(), "version") || str_eq(key.as_str(), "dictDate") {
                q3 = match crate::json::parse_string(data, q2) {
                    Some((_, v)) => v,
                    None => {
                        return Err(Error::Schema);
                    },
                };
            } else if str_eq(key.as_str(), "languages") || str_eq(key.as_str(), "dictRevisions") {
                q3 = match crate::json::parse_string_array(data, q2) {
                    Some((_, v)) => v,
                    None => {
                        return Err(Error::Schema);
                    },
                };
            } else if str_eq(key.as_str(), "commonOnly") {
                q3 = match crate::json::parse_bool(data, q2) {
                    Some((_, v)) => v,
                    None => {
                        return Err(Error::Schema);
                    },
                };
            } else if str_eq(key.as_str(), "tags") {
                q3 = match crate::json::parse_string_map(data, q2) {
                    Some((_, v)) => v,
                    None => {
                        return Err(Error::Schema);
                    },
                };
            } else if str_eq(key.as_str(), "words") {
                q3 = match import_words(data, q2, &mut builder) {
                    Ok(v) => v,
                    Err(e) => {
                        return Err(e);
                    },
                };
                proof {
                    let ws = spec_words(data@, q2 as int).unwrap().0;
                    lemma_words_pairs_concat(imported, ws);
                    assert(builder.contents() =~= start + words_pairs(imported + ws));
                    imported = imported + ws;
                }
            } else {
                return Err(Error::Schema);
            }
            let (more, q4) = match crate::json::element_sep(data, q3, 0x7d) {
                Some(v) => v,
                None => {
                    return Err(Error::Schema);
                },
            };
            p = q4;
            if !more {
                done = true;
                proof {
                    assert(spec_members_words(data@, p0, acc0) == Some(imported));
                }
            } else {
                proof {
                    assert(spec_members_words(data@, p0, acc0) == spec_members_words(
                        data@,
                        p as int,
                        imported,
                    ));
                }
            }
        }
        match builder.build(metadata) {
            Ok(d) => {
                proof {
                    assert(d.contents() == start + words_pairs(imported));
                }
                Ok(d)
            },
            Err(e) => Err(Error::DictBuilder(e)),
        }
    }
}

} // verus!
