//! The disk-backed storage backend.
//!
//! A dictionary is one immutable file in the constant-database format: the
//! records are appended during the build, a fixed hash index is written at
//! finalization, and lookups afterwards cost one or two seeks. The file
//! format itself comes from the `cdb` crate; this module states what that
//! crate does and proves the dictionary behaviour on top of it.

use vstd::prelude::*;
use vstd::utf8::encode_utf8;

use crate::codec::{encode_spec, entry_fits, is_entry_layout, layout_entry,
    lemma_layout_entry_of_encoding};
use crate::dictionary::{DictionaryEntry, EntryModel};
use crate::metadata::{DictionaryMetadata, MetadataModel};
use crate::storage::{entries_under, lemma_filter_map_push, ContentsModel, Dictionary,
    DictionaryBuilder};

verus! {

broadcast use vstd::seq_lib::group_seq_properties;

/// The records a [`cdb::CDBWriter`] has been given so far: (key bytes,
/// value bytes) pairs in the order they were added.
pub uninterp spec fn writer_records(w: cdb::CDBWriter) -> Seq<(Seq<u8>, Seq<u8>)>;

/// The destination path a [`cdb::CDBWriter`] was created with: where
/// `finish` puts the finished file.
pub uninterp spec fn writer_dest(w: cdb::CDBWriter) -> Seq<char>;

/// The records a [`cdb::CDB`] file holds, in the order they were written.
pub uninterp spec fn stored_records(db: cdb::CDB) -> Seq<(Seq<u8>, Seq<u8>)>;

#[verifier::external_type_specification]
#[verifier::external_body]
pub struct ExCDBWriter(cdb::CDBWriter);

#[verifier::external_type_specification]
#[verifier::external_body]
pub struct ExCDB(cdb::CDB);

/// Relies on cdb's `CDBWriter::create`: it starts a database with no
/// records, written to a temporary file that `finish` will move to `path`.
#[verifier::external_body]
fn cdb_writer_create(path: &str) -> (r: Result<cdb::CDBWriter, std::io::Error>)
    ensures
        r matches Ok(w) ==> writer_records(w) == Seq::<(Seq<u8>, Seq<u8>)>::empty()
            && writer_dest(w) == path@,
{
    cdb::CDBWriter::create(path)
}

/// Relies on cdb's `CDBWriter::add`: on success the record stands appended
/// behind the records already given; the destination path is untouched
/// either way. The crate tests its `u32` file position by an addition
/// that overflows once the data section would pass the format's 4 GiB
/// cap — an error under release arithmetic but a panic under debug
/// overflow checks — so the `requires` keeps the position (the 2048-byte
/// header, the records written so far, and this record behind its 8-byte
/// length pair) within the cap.
#[verifier::external_body]
fn cdb_writer_add(w: &mut cdb::CDBWriter, key: &[u8], value: &[u8]) -> (r: Result<
    (),
    std::io::Error,
>)
    requires
        2048 + records_size(writer_records(*old(w))) + 8 + key@.len() + value@.len()
            <= 0xffff_ffff,
    ensures
        r is Ok ==> writer_records(*final(w)) == writer_records(*old(w)).push((key@, value@)),
        writer_dest(*final(w)) == writer_dest(*old(w)),
{
    w.add(key, value)
}

/// Relies on cdb's `CDBWriter::finish` and `CDB::open`: `finish` writes
/// the hash index and moves the finished file to the writer's destination;
/// `open` at that same path then reads back exactly the written records.
/// The two calls stand in one trusted function because only across the
/// pair can the round trip through the file be stated; the path is the
/// dictionary's identity, and nothing else may touch the file in between.
/// A caveat of the crate: it writes with `write` rather than `write_all`,
/// so a partial write (for instance disk-full midway through a large
/// record) can be silently swallowed; the finished file is then corrupt
/// rather than this call failing. The same `u32` position arithmetic as
/// in `add` runs while the hash table (16 bytes per record) is written,
/// so the `requires` keeps the whole finished file within the format's
/// 4 GiB cap.
#[verifier::external_body]
fn cdb_finish_and_open(w: cdb::CDBWriter, path: &str) -> (r: Result<cdb::CDB, std::io::Error>)
    requires
        writer_dest(w) == path@,
        2048 + records_size(writer_records(w)) + 16 * writer_records(w).len() <= 0xffff_ffff,
    ensures
        r matches Ok(db) ==> stored_records(db) == writer_records(w),
{
    w.finish()?;
    cdb::CDB::open(path)
}

/// Relies on cdb's `CDB::open`: it opens the file at `path` read-only and
/// only checks the presence and shape of the index; it never re-scans or
/// re-indexes. Nothing is assumed about what the file holds.
#[verifier::external_body]
fn cdb_open(path: &str) -> (r: Result<cdb::CDB, std::io::Error>) {
    cdb::CDB::open(path)
}

/// Relies on cdb's `CDB::find`: it yields the values stored under `key`,
/// byte-for-byte equal keys only, in insertion order. The file is
/// memory-mapped, so on a well-formed file the per-record reads cannot
/// fail. On a damaged file a slot read can fail, and the crate's iterator
/// does not advance past such a failure, so the iteration stops at the
/// first error instead (availability over strictness: a corrupt database
/// yields fewer results, never a hang); the [`stored_records`] model of
/// such a database is what `find` still reaches. A caveat of the crate:
/// on a damaged file the reader's bounds tests can overflow `u32`, a
/// per-record error under release arithmetic but a panic under debug
/// overflow checks.
#[verifier::external_body]
fn cdb_find(db: &cdb::CDB, key: &[u8]) -> (r: Vec<Vec<u8>>)
    ensures
        r.deep_view() == values_under(stored_records(*db), key@),
{
    let mut out = Vec::new();
    for item in db.find(key) {
        match item {
            Ok(value) => out.push(value),
            Err(_) => {
                break;
            },
        }
    }
    out
}

/// The bytes a record sequence occupies in the database's data section:
/// an 8-byte length pair, the key and the value, for each record.
pub open spec fn records_size(records: Seq<(Seq<u8>, Seq<u8>)>) -> int
    decreases records.len(),
{
    if records.len() == 0 {
        0
    } else {
        records_size(records.drop_last()) + 8 + records.last().0.len() + records.last().1.len()
    }
}

/// The size of the finished database file for the given contents: the
/// 2048-byte header, then for each record its 8-byte length pair, its key
/// bytes, its entry's layout, and 16 bytes of hash table.
pub open spec fn database_size(contents: ContentsModel) -> int
    decreases contents.len(),
{
    if contents.len() == 0 {
        2048
    } else {
        database_size(contents.drop_last()) + 24 + contents.last().0.len() + encode_spec(
            contents.last().1,
        ).len()
    }
}

/// The file size is the header, the encoded records' data section, and
/// the 16 bytes of hash table per record; it is never under the header's
/// size.
proof fn lemma_database_size(contents: ContentsModel)
    ensures
        database_size(contents) == 2048 + records_size(encoded_records(contents)) + 16
            * contents.len(),
        database_size(contents) >= 2048,
    decreases contents.len(),
{
    if contents.len() == 0 {
        reveal_with_fuel(records_size, 1);
        assert(encoded_records(contents) =~= Seq::<(Seq<u8>, Seq<u8>)>::empty());
    } else {
        lemma_database_size(contents.drop_last());
        assert(encoded_records(contents).drop_last() =~= encoded_records(contents.drop_last()));
        assert(encoded_records(contents).last() == (
            contents.last().0,
            encode_spec(contents.last().1),
        ));
    }
}

pub open spec fn raw_key_matches(key: Seq<u8>) -> spec_fn((Seq<u8>, Seq<u8>)) -> bool {
    |q: (Seq<u8>, Seq<u8>)| q.0 == key
}

pub open spec fn raw_value() -> spec_fn((Seq<u8>, Seq<u8>)) -> Seq<u8> {
    |q: (Seq<u8>, Seq<u8>)| q.1
}

pub open spec fn raw_is_layout() -> spec_fn((Seq<u8>, Seq<u8>)) -> bool {
    |q: (Seq<u8>, Seq<u8>)| is_entry_layout(q.1)
}

pub open spec fn raw_decode() -> spec_fn((Seq<u8>, Seq<u8>)) -> (Seq<u8>, EntryModel) {
    |q: (Seq<u8>, Seq<u8>)| (q.0, layout_entry(q.1))
}

pub open spec fn value_is_layout() -> spec_fn(Seq<u8>) -> bool {
    |v: Seq<u8>| is_entry_layout(v)
}

pub open spec fn value_decode() -> spec_fn(Seq<u8>) -> EntryModel {
    |v: Seq<u8>| layout_entry(v)
}

/// The values stored under one key, in insertion order.
pub open spec fn values_under(records: Seq<(Seq<u8>, Seq<u8>)>, key: Seq<u8>) -> Seq<Seq<u8>> {
    records.filter(raw_key_matches(key)).map_values(raw_value())
}

/// The raw records that hold a dictionary's contents: each key kept, each
/// entry in its binary layout.
pub open spec fn encoded_records(contents: ContentsModel) -> Seq<(Seq<u8>, Seq<u8>)> {
    contents.map_values(|p: (Seq<u8>, EntryModel)| (p.0, encode_spec(p.1)))
}

/// The dictionary contents a raw record sequence holds: records whose
/// value is no entry's layout are dropped, the rest are decoded.
pub open spec fn decoded_contents(records: Seq<(Seq<u8>, Seq<u8>)>) -> ContentsModel {
    records.filter(raw_is_layout()).map_values(raw_decode())
}

/// The entries among a value sequence, decoded; values that are no entry's
/// layout are dropped.
pub open spec fn decoded_values(vals: Seq<Seq<u8>>) -> Seq<EntryModel> {
    vals.filter(value_is_layout()).map_values(value_decode())
}

/// Decoding the encoded records of fitting contents gives the contents
/// back.
proof fn lemma_decoded_encoded(contents: ContentsModel)
    requires
        forall|i: int| 0 <= i < contents.len() ==> entry_fits(#[trigger] contents[i].1),
    ensures
        decoded_contents(encoded_records(contents)) == contents,
    decreases contents.len(),
{
    if contents.len() == 0 {
        reveal_with_fuel(Seq::filter, 1);
        assert(encoded_records(contents) =~= Seq::<(Seq<u8>, Seq<u8>)>::empty());
        assert(decoded_contents(encoded_records(contents)) =~= contents);
    } else {
        let rest = contents.drop_last();
        let p = contents.last();
        lemma_decoded_encoded(rest);
        assert(encoded_records(contents) =~= encoded_records(rest).push((p.0, encode_spec(p.1))));
        lemma_layout_entry_of_encoding(p.1);
        lemma_filter_map_push(encoded_records(rest), raw_is_layout(), raw_decode(), (p.0, encode_spec(p.1)));
        assert(decoded_contents(encoded_records(contents)) =~= rest.push(p));
        assert(rest.push(p) =~= contents);
    }
}

/// Appending one raw record changes the decoded contents by the decoded
/// record exactly when its value is an entry's layout.
proof fn lemma_decoded_contents_push(records: Seq<(Seq<u8>, Seq<u8>)>, p: (Seq<u8>, Seq<u8>))
    ensures
        is_entry_layout(p.1) ==> decoded_contents(records.push(p)) == decoded_contents(
            records,
        ).push((p.0, layout_entry(p.1))),
        !is_entry_layout(p.1) ==> decoded_contents(records.push(p)) == decoded_contents(records),
{
    lemma_filter_map_push(records, raw_is_layout(), raw_decode(), p);
}

/// Appending one raw record extends the values stored under `key` exactly
/// when the record's key matches.
proof fn lemma_values_under_push(
    records: Seq<(Seq<u8>, Seq<u8>)>,
    key: Seq<u8>,
    p: (Seq<u8>, Seq<u8>),
)
    ensures
        p.0 == key ==> values_under(records.push(p), key) == values_under(records, key).push(p.1),
        p.0 != key ==> values_under(records.push(p), key) == values_under(records, key),
{
    lemma_filter_map_push(records, raw_key_matches(key), raw_value(), p);
}

/// Appending one value extends the decoded entries exactly when the value
/// is an entry's layout.
proof fn lemma_decoded_values_push(vals: Seq<Seq<u8>>, v: Seq<u8>)
    ensures
        is_entry_layout(v) ==> decoded_values(vals.push(v)) == decoded_values(vals).push(
            layout_entry(v),
        ),
        !is_entry_layout(v) ==> decoded_values(vals.push(v)) == decoded_values(vals),
{
    lemma_filter_map_push(vals, value_is_layout(), value_decode(), v);
}

/// Looking a key up in the decoded contents is decoding the values stored
/// under the key: dropping undecodable records and filtering by key
/// commute.
proof fn lemma_lookup_decode_commute(records: Seq<(Seq<u8>, Seq<u8>)>, key: Seq<u8>)
    ensures
        entries_under(decoded_contents(records), key) == decoded_values(
            values_under(records, key),
        ),
    decreases records.len(),
{
    reveal_with_fuel(Seq::filter, 1);
    if records.len() == 0 {
        assert(decoded_contents(records) =~= ContentsModel::empty());
        assert(values_under(records, key) =~= Seq::<Seq<u8>>::empty());
        assert(entries_under(decoded_contents(records), key) =~= decoded_values(
            values_under(records, key),
        ));
    } else {
        let rest = records.drop_last();
        let p = records.last();
        lemma_lookup_decode_commute(rest, key);
        assert(records =~= rest.push(p));
        lemma_decoded_contents_push(rest, p);
        lemma_values_under_push(rest, key, p);
        if is_entry_layout(p.1) {
            let e = layout_entry(p.1);
            if p.0 == key {
                crate::storage::lemma_entries_under_push_hit(decoded_contents(rest), key, e);
                assert(decoded_contents(rest).push((p.0, e)) == decoded_contents(rest).push(
                    (key, e),
                ));
                lemma_decoded_values_push(values_under(rest, key), p.1);
            } else {
                crate::storage::lemma_entries_under_push_miss(
                    decoded_contents(rest),
                    key,
                    p.0,
                    e,
                );
            }
        } else {
            if p.0 == key {
                lemma_decoded_values_push(values_under(rest, key), p.1);
            }
        }
    }
}

/// An error from building a disk-backed dictionary.
#[derive(Debug)]
pub enum CDBDictionaryBuilderError {
    /// The database file could not be written or reopened.
    CDBFileIo(std::io::Error),
    /// The record would push the database file past the format's 4 GiB
    /// size cap; the builder is left unchanged.
    DatabaseTooLarge,
}

/// The builder of the disk-backed backend: appends records to a growing
/// database file; `build` writes the hash index and reopens the file
/// read-only.
pub struct CDBDictionaryBuilder {
    writer: cdb::CDBWriter,
    path: String,
    bytes_used: u64,
    contents: Ghost<ContentsModel>,
}

impl CDBDictionaryBuilder {
    /// The path the finished database file will stand at: the path this
    /// builder was created with.
    pub closed spec fn path_model(&self) -> Seq<char> {
        self.path@
    }

    /// Starts an empty database that `build` will place at `path`.
    pub fn new(path: &str) -> (r: Result<Self, std::io::Error>)
        ensures
            r matches Ok(b) ==> b.inv() && b.contents() == ContentsModel::empty()
                && b.path_model() == path@,
    {
        match cdb_writer_create(path) {
            Ok(writer) => {
                let b = CDBDictionaryBuilder {
                    writer,
                    path: path.to_owned(),
                    bytes_used: 2048,
                    contents: Ghost(ContentsModel::empty()),
                };
                proof {
                    assert(encoded_records(b.contents@) =~= Seq::<(Seq<u8>, Seq<u8>)>::empty());
                }
                Ok(b)
            },
            Err(e) => Err(e),
        }
    }
}

impl DictionaryBuilder for CDBDictionaryBuilder {
    type Dict = CDBDictionary;

    type Error = CDBDictionaryBuilderError;

    closed spec fn contents(&self) -> ContentsModel {
        self.contents@
    }

    closed spec fn inv(&self) -> bool {
        &&& writer_dest(self.writer) == self.path@
        &&& writer_records(self.writer) == encoded_records(self.contents@)
        &&& forall|i: int|
            0 <= i < self.contents@.len() ==> entry_fits(#[trigger] self.contents@[i].1)
        &&& self.bytes_used as int == database_size(self.contents@)
        &&& self.bytes_used <= 0xffff_ffff
    }

    fn add(&mut self, key: &str, entry: DictionaryEntry) -> (r: Result<
        (),
        CDBDictionaryBuilderError,
    >)
        ensures
            final(self).path_model() == old(self).path_model(),
            (r matches Err(e) && e is DatabaseTooLarge) <==> database_size(old(self).contents())
                + 24 + encode_utf8(key@).len() + encode_spec(entry@).len() > 0xffff_ffff,
            (r matches Err(e) && e is DatabaseTooLarge) ==> *final(self) == *old(self),
    {
        let value = entry.serialize_fast();
        let key_bytes = key.as_bytes();
        let k = key_bytes.len() as u64;
        let v = value.len() as u64;
        proof {
            lemma_database_size(self.contents@);
        }
        if k > 0xffff_ffff || v > 0xffff_ffff || 24 + k + v > 0xffff_ffff - self.bytes_used {
            return Err(CDBDictionaryBuilderError::DatabaseTooLarge);
        }
        match cdb_writer_add(&mut self.writer, key_bytes, value.as_slice()) {
            Ok(()) => {
                self.bytes_used = self.bytes_used + (24 + k + v);
                proof {
                    self.contents@ = self.contents@.push((encode_utf8(key@), entry@));
                    assert(writer_records(self.writer) =~= encoded_records(self.contents@));
                    assert(self.contents@.drop_last() =~= old(self).contents@);
                    assert(database_size(self.contents@) == database_size(old(self).contents@)
                        + 24 + encode_utf8(key@).len() + encode_spec(entry@).len());
                }
                Ok(())
            },
            Err(e) => Err(CDBDictionaryBuilderError::CDBFileIo(e)),
        }
    }

    fn build(self, metadata: DictionaryMetadata) -> (r: Result<
        CDBDictionary,
        CDBDictionaryBuilderError,
    >)
        ensures
            r matches Ok(d) ==> d.path_model() == self.path_model(),
    {
        let CDBDictionaryBuilder { writer, path, bytes_used, contents } = self;
        proof {
            lemma_database_size(contents@);
        }
        match cdb_finish_and_open(writer, path.as_str()) {
            Ok(db) => {
                proof {
                    lemma_decoded_encoded(contents@);
                }
                Ok(CDBDictionary { cdb: db, path, metadata })
            },
            Err(e) => Err(CDBDictionaryBuilderError::CDBFileIo(e)),
        }
    }
}

/// The disk-backed dictionary: an immutable, hash-indexed database file,
/// open read-only, with the metadata bound at build time.
///
/// Its contents are the decodable records of the file; a record that is no
/// entry's layout is left out of every lookup rather than failing it.
pub struct CDBDictionary {
    cdb: cdb::CDB,
    path: String,
    metadata: DictionaryMetadata,
}

impl CDBDictionary {
    /// Reopens a finished dictionary file, binding `metadata` to it again.
    /// The path is the dictionary's identity: the file is only validated,
    /// never re-scanned, and its records become the dictionary's contents.
    pub fn open(path: &str, metadata: DictionaryMetadata) -> (r: Result<Self, std::io::Error>)
        ensures
            r matches Ok(d) ==> d.inv() && d.metadata_model() == metadata@ && d.path_model()
                == path@,
    {
        match cdb_open(path) {
            Ok(db) => Ok(CDBDictionary { cdb: db, path: path.to_owned(), metadata }),
            Err(e) => Err(e),
        }
    }

    /// The path of the database file, the dictionary's identity; reopening
    /// it later takes this path, unchanged.
    pub fn file_path(&self) -> (r: &str)
        ensures
            r@ == self.path_model(),
    {
        self.path.as_str()
    }

    /// The path of the database file.
    pub closed spec fn path_model(&self) -> Seq<char> {
        self.path@
    }
}

impl Dictionary for CDBDictionary {
    closed spec fn contents(&self) -> ContentsModel {
        decoded_contents(stored_records(self.cdb))
    }

    closed spec fn metadata_model(&self) -> MetadataModel {
        self.metadata@
    }

    closed spec fn inv(&self) -> bool {
        true
    }

    fn get(&self, key: &str) -> (r: Vec<DictionaryEntry>) {
        let ghost kb = encode_utf8(key@);
        let vals = cdb_find(&self.cdb, key.as_bytes());
        let ghost vv = vals.deep_view();
        proof {
            lemma_lookup_decode_commute(stored_records(self.cdb), kb);
            reveal_with_fuel(Seq::filter, 1);
            assert(vv.take(0) =~= Seq::<Seq<u8>>::empty());
            assert(decoded_values(vv.take(0)) =~= Seq::<EntryModel>::empty());
        }
        let mut r: Vec<DictionaryEntry> = Vec::new();
        let mut i: usize = 0;
        while i < vals.len()
            invariant
                i <= vals.len(),
                vv == vals.deep_view(),
                vv.len() == vals@.len(),
                r.deep_view() == decoded_values(vv.take(i as int)),
            decreases vals.len() - i,
        {
            let ghost v = vv[i as int];
            proof {
                assert(v =~= vals@[i as int]@);
                assert(vv.take(i + 1) =~= vv.take(i as int).push(v));
                lemma_decoded_values_push(vv.take(i as int), v);
            }
            match DictionaryEntry::deserialize(vals[i].as_slice()) {
                Ok(entry) => {
                    proof {
                        assert(is_entry_layout(v));
                        let w = layout_entry(v);
                        crate::codec::lemma_encode_spec_inj(entry@, w);
                        assert(entry@ =~= w);
                    }
                    r.push(entry);
                    proof {
                        assert(r.deep_view() =~= decoded_values(vv.take(i + 1)));
                    }
                },
                Err(_) => {
                    proof {
                        assert(!is_entry_layout(v));
                    }
                },
            }
            i += 1;
        }
        proof {
            assert(vv.take(vv.len() as int) =~= vv);
        }
        r
    }

    fn get_metadata(&self) -> (m: &DictionaryMetadata) {
        &self.metadata
    }
}

} // verus!
