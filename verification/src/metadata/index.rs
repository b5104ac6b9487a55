//! The metadata index: a TOML document with a `format-version` and a
//! `notes` table that holds one record table per note ID.
use vstd::prelude::*;
use crate::config::MetadataFieldConfig;
use crate::handlers::code_actions::entry_lookup;
use crate::metadata::records::{
    apply_patch_to_table, canonical_record, canonical_record_table, complete_record_table, default_record_table,
    merge_missing, parse_record_for_read, patch_upto, read_error, record_error_message, record_of, MetadataRecord,
    RecordError, RecordErrorModel, RecordModel,
};
use crate::metadata::{is_note_id, note_id_spec};
use crate::metadata_schema::{default_metadata, key_index, key_index_exec, table_set};
use crate::note_ops::entry_value;
use crate::text::push_str;
use crate::toml_value::{
    copy_toml, entry_models, lemma_entry_models, parse_toml_document, toml_document, toml_model, TomlModel, TomlValue,
};

verus! {

/// Why the index, or a record in it, cannot be read or written.
#[derive(Debug, Clone, PartialEq, Eq)]
pub enum IndexError {
    /// `parsing {path}`: the text is not TOML.
    Unparsable { path: String },
    /// `Missing format-version`
    MissingFormatVersion,
    /// `Unsupported metadata format-version`
    UnsupportedFormatVersion,
    /// `Missing notes table`
    MissingNotes,
    /// `Missing metadata for current note`
    MissingRecord,
    /// `Invalid note ID`
    InvalidNoteId,
    /// A record that cannot be read or patched.
    Record(RecordError),
}

pub enum IndexErrorModel {
    Unparsable(Seq<char>),
    MissingFormatVersion,
    UnsupportedFormatVersion,
    MissingNotes,
    MissingRecord,
    InvalidNoteId,
    Record(RecordErrorModel),
}

impl View for IndexError {
    type V = IndexErrorModel;

    open spec fn view(&self) -> IndexErrorModel {
        match self {
            IndexError::Unparsable { path } => IndexErrorModel::Unparsable(path@),
            IndexError::MissingFormatVersion => IndexErrorModel::MissingFormatVersion,
            IndexError::UnsupportedFormatVersion => IndexErrorModel::UnsupportedFormatVersion,
            IndexError::MissingNotes => IndexErrorModel::MissingNotes,
            IndexError::MissingRecord => IndexErrorModel::MissingRecord,
            IndexError::InvalidNoteId => IndexErrorModel::InvalidNoteId,
            IndexError::Record(e) => IndexErrorModel::Record(e@),
        }
    }
}

pub open spec fn index_error_message(e: IndexErrorModel) -> Seq<char> {
    match e {
        IndexErrorModel::Unparsable(path) => "parsing "@ + path,
        IndexErrorModel::MissingFormatVersion => "Missing format-version"@,
        IndexErrorModel::UnsupportedFormatVersion => "Unsupported metadata format-version"@,
        IndexErrorModel::MissingNotes => "Missing notes table"@,
        IndexErrorModel::MissingRecord => "Missing metadata for current note"@,
        IndexErrorModel::InvalidNoteId => "Invalid note ID"@,
        IndexErrorModel::Record(r) => record_error_message(r),
    }
}

impl IndexError {
    /// The message shown for the error.
    pub fn message(&self) -> (r: String)
        ensures
            r@ == index_error_message(self@),
    {
        match self {
            IndexError::Unparsable { path } => {
                let mut out: Vec<char> = Vec::new();
                push_str(&mut out, "parsing ");
                push_str(&mut out, path.as_str());
                crate::text::string_from_chars(&out)
            },
            IndexError::MissingFormatVersion => "Missing format-version".to_owned(),
            IndexError::UnsupportedFormatVersion => "Unsupported metadata format-version".to_owned(),
            IndexError::MissingNotes => "Missing notes table".to_owned(),
            IndexError::MissingRecord => "Missing metadata for current note".to_owned(),
            IndexError::InvalidNoteId => "Invalid note ID".to_owned(),
            IndexError::Record(e) => e.message(),
        }
    }
}

/// `root` joined with the relative path `name`, as `Path::join` does it.
pub open spec fn joined_path(root: Seq<char>, name: Seq<char>) -> Seq<char> {
    if root.len() == 0 {
        name
    } else if root.last() == '/' {
        root + name
    } else {
        root + "/"@ + name
    }
}

/// The path of the index under the wiki root: `metadata.toml`.
pub fn metadata_path(root: &str) -> (r: String)
    ensures
        r@ == joined_path(root@, "metadata.toml"@),
{
    let cs = crate::text::chars_of(root);
    let mut out: Vec<char> = Vec::new();
    push_str(&mut out, root);
    if cs.len() > 0 && cs[cs.len() - 1] != '/' {
        push_str(&mut out, "/");
    }
    push_str(&mut out, "metadata.toml");
    proof {
        reveal_strlit("/");
    }
    crate::text::string_from_chars(&out)
}

/// What is wrong with an index's `format-version`, if anything.
pub open spec fn format_error(root: Seq<(Seq<char>, TomlModel)>) -> Option<IndexErrorModel> {
    match entry_value(root, "format-version"@, 0) {
        Some(TomlModel::Integer(v)) => if v == 1 {
            None
        } else {
            Some(IndexErrorModel::UnsupportedFormatVersion)
        },
        _ => Some(IndexErrorModel::MissingFormatVersion),
    }
}

fn check_format(root: &Vec<(String, TomlValue)>) -> (r: Option<IndexError>)
    ensures
        match r {
            Some(e) => format_error(entry_models(root@)) == Some(e@),
            None => format_error(entry_models(root@)) is None,
        },
{
    match entry_lookup(root, "format-version") {
        Some(TomlValue::Integer(v)) => if *v == 1 {
            None
        } else {
            Some(IndexError::UnsupportedFormatVersion)
        },
        _ => Some(IndexError::MissingFormatVersion),
    }
}

/// Reads the text of the index at `path`: its top-level table, where the
/// text is TOML with format version 1.
pub fn parse_index(raw: &str, path: &str) -> (r: Result<Vec<(String, TomlValue)>, IndexError>)
    ensures
        match r {
            Ok(t) => toml_document(raw@) == Some(entry_models(t@)) && format_error(entry_models(t@)) is None,
            Err(e) => match toml_document(raw@) {
                None => e@ == IndexErrorModel::Unparsable(path@),
                Some(t) => format_error(t) == Some(e@),
            },
        },
{
    match parse_toml_document(raw) {
        None => Err(IndexError::Unparsable { path: path.to_owned() }),
        Some(t) => match check_format(&t) {
            Some(e) => Err(e),
            None => Ok(t),
        },
    }
}

/// The `notes` table of an index, if it is one.
pub open spec fn notes_of(root: Seq<(Seq<char>, TomlModel)>) -> Option<Seq<(Seq<char>, TomlModel)>> {
    match entry_value(root, "notes"@, 0) {
        Some(TomlModel::Table(n)) => Some(n),
        _ => None,
    }
}

/// The record table of `id` in an index.
pub open spec fn record_table_in(root: Seq<(Seq<char>, TomlModel)>, id: Seq<char>) -> Result<
    Seq<(Seq<char>, TomlModel)>,
    IndexErrorModel,
> {
    match notes_of(root) {
        None => Err(IndexErrorModel::MissingNotes),
        Some(n) => match entry_value(n, id, 0) {
            Some(TomlModel::Table(t)) => Ok(t),
            _ => Err(IndexErrorModel::MissingRecord),
        },
    }
}

/// The record table of `id` in the index (`record_table_in`).
pub fn index_record_table(root: &Vec<(String, TomlValue)>, id: &str) -> (r: Result<Vec<(String, TomlValue)>, IndexError>)
    ensures
        match r {
            Ok(t) => record_table_in(entry_models(root@), id@) == Ok::<_, IndexErrorModel>(entry_models(t@)),
            Err(e) => record_table_in(entry_models(root@), id@) == Err::<Seq<(Seq<char>, TomlModel)>, _>(e@),
        },
{
    match entry_lookup(root, "notes") {
        Some(TomlValue::Table(notes)) => match entry_lookup(notes, id) {
            Some(v) => match copy_toml(v) {
                TomlValue::Table(out) => Ok(out),
                _ => Err(IndexError::MissingRecord),
            },
            None => Err(IndexError::MissingRecord),
        },
        _ => Err(IndexError::MissingNotes),
    }
}

/// The record table of `id`, or the default record where the index is
/// missing (`None`) or holds no record for `id`.
pub open spec fn record_or_default(root: Option<Seq<(Seq<char>, TomlModel)>>, id: Seq<char>, fields: Seq<MetadataFieldConfig>) -> Result<
    Seq<(Seq<char>, TomlModel)>,
    IndexErrorModel,
> {
    match root {
        None => Ok(default_metadata(fields)),
        Some(r) => match record_table_in(r, id) {
            Err(IndexErrorModel::MissingRecord) => Ok(default_metadata(fields)),
            other => other,
        },
    }
}

pub open spec fn opt_models(root: Option<&Vec<(String, TomlValue)>>) -> Option<Seq<(Seq<char>, TomlModel)>> {
    match root {
        Some(r) => Some(entry_models(r@)),
        None => None,
    }
}

/// The record table of `id` (`record_or_default`); `root` is `None` where
/// the index file does not exist.
pub fn record_table_or_default(
    root: Option<&Vec<(String, TomlValue)>>,
    id: &str,
    metadata_fields: &[MetadataFieldConfig],
) -> (r: Result<Vec<(String, TomlValue)>, IndexError>)
    ensures
        match r {
            Ok(t) => record_or_default(opt_models(root), id@, metadata_fields@) == Ok::<_, IndexErrorModel>(
                entry_models(t@),
            ),
            Err(e) => record_or_default(opt_models(root), id@, metadata_fields@) == Err::<
                Seq<(Seq<char>, TomlModel)>,
                _,
            >(e@),
        },
{
    match root {
        None => Ok(default_record_table(metadata_fields)),
        Some(r) => match index_record_table(r, id) {
            Ok(t) => Ok(t),
            Err(IndexError::MissingRecord) => Ok(default_record_table(metadata_fields)),
            Err(e) => Err(e),
        },
    }
}

/// The record of `id`, read and checked.
pub open spec fn record_in(root: Seq<(Seq<char>, TomlModel)>, id: Seq<char>, fields: Seq<MetadataFieldConfig>) -> Result<
    RecordModel,
    IndexErrorModel,
> {
    match record_table_in(root, id) {
        Err(e) => Err(e),
        Ok(t) => match read_error(t, fields) {
            Some(e) => Err(IndexErrorModel::Record(e)),
            None => Ok(record_of(t)),
        },
    }
}

/// Reads the record of `id` from the index (`record_in`).
pub fn read_record_in_index(
    root: &Vec<(String, TomlValue)>,
    id: &str,
    metadata_fields: &[MetadataFieldConfig],
) -> (r: Result<MetadataRecord, IndexError>)
    ensures
        match r {
            Ok(rec) => record_in(entry_models(root@), id@, metadata_fields@) == Ok::<_, IndexErrorModel>(rec@),
            Err(e) => record_in(entry_models(root@), id@, metadata_fields@) == Err::<RecordModel, _>(e@),
        },
{
    match index_record_table(root, id) {
        Err(e) => Err(e),
        Ok(t) => match parse_record_for_read(&t, metadata_fields) {
            Ok(rec) => Ok(rec),
            Err(e) => Err(IndexError::Record(e)),
        },
    }
}

/// A new index: format version 1 and no notes.
pub open spec fn empty_index() -> Seq<(Seq<char>, TomlModel)> {
    seq![("format-version"@, TomlModel::Integer(1)), ("notes"@, TomlModel::Table(seq![]))]
}

/// A new index (`empty_index`).
pub fn empty_index_table() -> (r: Vec<(String, TomlValue)>)
    ensures
        entry_models(r@) == empty_index(),
{
    let mut t: Vec<(String, TomlValue)> = Vec::new();
    assert(entry_models(t@) =~= Seq::<(Seq<char>, TomlModel)>::empty());
    crate::metadata_schema::push_entry(&mut t, "format-version", TomlValue::Integer(1));
    crate::metadata_schema::push_entry(&mut t, "notes", TomlValue::Table(Vec::new()));
    proof {
        let e: Seq<(String, TomlValue)> = seq![];
        assert(entry_models(e) =~= Seq::<(Seq<char>, TomlModel)>::empty());
    }
    assert(entry_models(t@) =~= empty_index());
    t
}

/// The index with the record table of `id` put in canonical order under
/// `notes`, and format version 1; a note ID that is not ten digits, or a
/// `notes` that is no table, is refused.
pub open spec fn put_record(root: Seq<(Seq<char>, TomlModel)>, id: Seq<char>, table: Seq<(Seq<char>, TomlModel)>) -> Result<
    Seq<(Seq<char>, TomlModel)>,
    IndexErrorModel,
> {
    if !note_id_spec(id) {
        Err(IndexErrorModel::InvalidNoteId)
    } else {
        let r1 = table_set(root, "format-version"@, TomlModel::Integer(1));
        let rec = TomlModel::Table(canonical_record(table));
        match key_index(r1, "notes"@, 0) {
            None => Ok(r1.push(("notes"@, TomlModel::Table(seq![(id, rec)])))),
            Some(i) => match r1[i].1 {
                TomlModel::Table(n) => Ok(r1.update(i, ("notes"@, TomlModel::Table(table_set(n, id, rec))))),
                _ => Err(IndexErrorModel::MissingNotes),
            },
        }
    }
}

/// Puts the record table of `id` into the index (`put_record`).
pub fn put_record_in_index(root: Vec<(String, TomlValue)>, id: &str, table: &Vec<(String, TomlValue)>) -> (r: Result<
    Vec<(String, TomlValue)>,
    IndexError,
>)
    ensures
        match r {
            Ok(t) => put_record(entry_models(root@), id@, entry_models(table@)) == Ok::<_, IndexErrorModel>(
                entry_models(t@),
            ),
            Err(e) => put_record(entry_models(root@), id@, entry_models(table@)) == Err::<
                Seq<(Seq<char>, TomlModel)>,
                _,
            >(e@),
        },
{
    if !is_note_id(id) {
        return Err(IndexError::InvalidNoteId);
    }
    let mut root = root;
    crate::metadata_schema::table_set_exec(&mut root, "format-version".to_owned(), TomlValue::Integer(1));
    let rec = TomlValue::Table(canonical_record_table(table));
    let ghost recm = rec@;
    match key_index_exec(&root, "notes") {
        None => {
            let mut notes: Vec<(String, TomlValue)> = Vec::new();
            assert(entry_models(notes@) =~= Seq::<(Seq<char>, TomlModel)>::empty());
            crate::metadata_schema::push_entry(&mut notes, id, rec);
            proof {
                reveal_strlit("notes");
            }
            crate::metadata_schema::push_entry(&mut root, "notes", TomlValue::Table(notes));
            Ok(root)
        },
        Some(i) => {
            proof {
                lemma_entry_models(root@);
            }
            assert(entry_models(root@)[i as int] == (root@[i as int].0@, toml_model(root@[i as int].1)));
            match copy_toml(&root[i].1) {
                TomlValue::Table(mut notes) => {
                    crate::metadata_schema::table_set_exec(&mut notes, id.to_owned(), rec);
                    let e = ("notes".to_owned(), TomlValue::Table(notes));
                    proof {
                        crate::metadata_schema::lemma_entry_models_update_pub(root@, i as int, e);
                    }
                    root.set(i, e);
                    Ok(root)
                },
                _ => Err(IndexError::MissingNotes),
            }
        },
    }
}

/// The index after a patch of the record of `id`: the record (or the
/// default record) is completed with the defaults, patched, and put back
/// in canonical order. `root` is `None` where the index file does not
/// exist; the index is then made.
pub open spec fn patched_index(
    root: Option<Seq<(Seq<char>, TomlModel)>>,
    id: Seq<char>,
    patch: Seq<(Seq<char>, TomlModel)>,
    fields: Seq<MetadataFieldConfig>,
) -> Result<Seq<(Seq<char>, TomlModel)>, IndexErrorModel> {
    match record_or_default(root, id, fields) {
        Err(e) => Err(e),
        Ok(t) => {
            let (t2, err) = patch_upto(merge_missing(t, default_metadata(fields)), patch, fields, patch.len() as int);
            match err {
                Some(e) => Err(IndexErrorModel::Record(e)),
                None => put_record(
                    match root {
                        Some(r) => r,
                        None => empty_index(),
                    },
                    id,
                    t2,
                ),
            }
        },
    }
}

/// Patches the record of `id` in the index (`patched_index`): what
/// ensuring a record with overrides and patching a record both do.
pub fn patch_record_in_index(
    root: Option<Vec<(String, TomlValue)>>,
    id: &str,
    patch: &[(String, TomlValue)],
    metadata_fields: &[MetadataFieldConfig],
) -> (r: Result<Vec<(String, TomlValue)>, IndexError>)
    ensures
        ({
            let rm = match root {
                Some(t) => Some(entry_models(t@)),
                None => None,
            };
            match r {
                Ok(t) => patched_index(rm, id@, entry_models(patch@), metadata_fields@) == Ok::<_, IndexErrorModel>(
                    entry_models(t@),
                ),
                Err(e) => patched_index(rm, id@, entry_models(patch@), metadata_fields@) == Err::<
                    Seq<(Seq<char>, TomlModel)>,
                    _,
                >(e@),
            }
        }),
{
    proof {
        lemma_entry_models(patch@);
    }
    let rref = root.as_ref();
    assert(opt_models(rref) == match root {
        Some(t) => Some(entry_models(t@)),
        None => None,
    });
    let mut table = match record_table_or_default(rref, id, metadata_fields) {
        Ok(t) => t,
        Err(e) => return Err(e),
    };
    complete_record_table(&mut table, metadata_fields);
    match apply_patch_to_table(&mut table, patch, metadata_fields) {
        Err(e) => return Err(IndexError::Record(e)),
        Ok(()) => {},
    }
    let base = match root {
        Some(r) => r,
        None => empty_index_table(),
    };
    put_record_in_index(base, id, &table)
}

/// The index without the record of `id` (its first entry under `notes`,
/// where `notes` is a table).
pub open spec fn without_record(root: Seq<(Seq<char>, TomlModel)>, id: Seq<char>) -> Seq<(Seq<char>, TomlModel)> {
    match key_index(root, "notes"@, 0) {
        Some(i) => match root[i].1 {
            TomlModel::Table(n) => match key_index(n, id, 0) {
                Some(j) => root.update(i, ("notes"@, TomlModel::Table(n.remove(j)))),
                None => root,
            },
            _ => root,
        },
        None => root,
    }
}

/// Removes the record of `id` from the index (`without_record`).
pub fn remove_record_from_index(root: &mut Vec<(String, TomlValue)>, id: &str)
    ensures
        entry_models(final(root)@) == without_record(entry_models(old(root)@), id@),
{
    match key_index_exec(root, "notes") {
        None => {},
        Some(i) => {
            proof {
                lemma_entry_models(root@);
            }
            assert(entry_models(root@)[i as int] == (root@[i as int].0@, toml_model(root@[i as int].1)));
            match copy_toml(&root[i].1) {
                TomlValue::Table(mut notes) => match key_index_exec(&notes, id) {
                    Some(j) => {
                        proof {
                            lemma_entry_models(notes@);
                        }
                        let ghost before = notes@;
                        notes.remove(j);
                        proof {
                            lemma_entry_models(notes@);
                            assert(entry_models(notes@) =~= entry_models(before).remove(j as int));
                        }
                        let e = ("notes".to_owned(), TomlValue::Table(notes));
                        proof {
                            crate::metadata_schema::lemma_entry_models_update_pub(root@, i as int, e);
                        }
                        root.set(i, e);
                    },
                    None => {},
                },
                _ => {},
            }
        },
    }
}

// ---------------------------------------------------------------------------
// Snapshots
// ---------------------------------------------------------------------------

/// The position of the entry with key `k` in `s`, from `i`.
pub open spec fn assoc_index<V>(s: Seq<(Seq<char>, V)>, k: Seq<char>, i: int) -> Option<int>
    decreases s.len() - i,
{
    if i < 0 || i >= s.len() {
        None
    } else if s[i].0 == k {
        Some(i)
    } else {
        assoc_index(s, k, i + 1)
    }
}

/// The value of key `k` in `s`.
pub open spec fn assoc_get<V>(s: Seq<(Seq<char>, V)>, k: Seq<char>) -> Option<V> {
    match assoc_index(s, k, 0) {
        Some(i) => Some(s[i].1),
        None => None,
    }
}

/// `s` with key `k` set to `v`: in place where present, else at the end.
pub open spec fn assoc_set<V>(s: Seq<(Seq<char>, V)>, k: Seq<char>, v: V) -> Seq<(Seq<char>, V)> {
    match assoc_index(s, k, 0) {
        Some(i) => s.update(i, (k, v)),
        None => s.push((k, v)),
    }
}

/// Pairs of keys and values, each by its view.
pub open spec fn pair_views<V: View>(s: Seq<(String, V)>) -> Seq<(Seq<char>, V::V)> {
    s.map_values(|e: (String, V)| (e.0@, e.1@))
}

fn assoc_index_exec<V: View>(s: &Vec<(String, V)>, k: &str) -> (r: Option<usize>)
    ensures
        match r {
            Some(i) => assoc_index(pair_views(s@), k@, 0) == Some(i as int) && i < s.len(),
            None => assoc_index(pair_views(s@), k@, 0) is None,
        },
{
    let ghost ps = pair_views(s@);
    let mut i: usize = 0;
    while i < s.len()
        invariant
            i <= s.len(),
            ps == pair_views(s@),
            ps.len() == s.len(),
            assoc_index(ps, k@, 0) == assoc_index(ps, k@, i as int),
        decreases s.len() - i,
    {
        assert(ps[i as int].0 == s@[i as int].0@);
        if crate::text::str_eq(s[i].0.as_str(), k) {
            return Some(i);
        }
        i += 1;
    }
    None
}

fn assoc_set_exec<V: View>(s: &mut Vec<(String, V)>, k: String, v: V)
    ensures
        pair_views(final(s)@) == assoc_set(pair_views(old(s)@), k@, v@),
{
    let ghost kv = k@;
    let ghost vv = v@;
    match assoc_index_exec(s, k.as_str()) {
        Some(i) => {
            s.set(i, (k, v));
            assert(pair_views(s@) =~= pair_views(old(s)@).update(i as int, (kv, vv)));
        },
        None => {
            s.push((k, v));
            assert(pair_views(s@) =~= pair_views(old(s)@).push((kv, vv)));
        },
    }
}

/// The records of a metadata index, each read and checked once; a record
/// that cannot be read keeps its error, and an index that cannot be read
/// keeps one error for all.
pub struct MetadataSnapshot {
    records: Vec<(String, MetadataRecord)>,
    record_errors: Vec<(String, String)>,
    global_error: Option<String>,
}

pub struct SnapshotModel {
    pub records: Seq<(Seq<char>, RecordModel)>,
    pub record_errors: Seq<(Seq<char>, Seq<char>)>,
    pub global_error: Option<Seq<char>>,
}

impl View for MetadataSnapshot {
    type V = SnapshotModel;

    closed spec fn view(&self) -> SnapshotModel {
        SnapshotModel {
            records: pair_views(self.records@),
            record_errors: pair_views(self.record_errors@),
            global_error: match self.global_error {
                Some(e) => Some(e@),
                None => None,
            },
        }
    }
}

/// The records and record errors of `notes[..n]`: an entry whose key is no
/// note ID is passed over; a value that is no table, or a record that
/// fails the read checks, gives an error for its ID.
pub open spec fn snapshot_upto(notes: Seq<(Seq<char>, TomlModel)>, fields: Seq<MetadataFieldConfig>, n: int) -> (
    Seq<(Seq<char>, RecordModel)>,
    Seq<(Seq<char>, Seq<char>)>,
)
    decreases n,
{
    if n <= 0 {
        (seq![], seq![])
    } else {
        let (rs, es) = snapshot_upto(notes, fields, n - 1);
        let id = notes[n - 1].0;
        if !note_id_spec(id) {
            (rs, es)
        } else {
            match notes[n - 1].1 {
                TomlModel::Table(t) => match read_error(t, fields) {
                    None => (assoc_set(rs, id, record_of(t)), es),
                    Some(e) => (rs, assoc_set(es, id, record_error_message(e))),
                },
                _ => (rs, assoc_set(es, id, "Invalid metadata for current note"@)),
            }
        }
    }
}

/// The snapshot of an index, or the error where it has no `notes` table.
pub open spec fn snapshot_of(root: Seq<(Seq<char>, TomlModel)>, fields: Seq<MetadataFieldConfig>) -> Result<
    SnapshotModel,
    IndexErrorModel,
> {
    match notes_of(root) {
        None => Err(IndexErrorModel::MissingNotes),
        Some(n) => {
            let (rs, es) = snapshot_upto(n, fields, n.len() as int);
            Ok(SnapshotModel { records: rs, record_errors: es, global_error: None })
        },
    }
}

/// What a snapshot answers for `id`: the index's error, else the record,
/// else the record's error, else that the record is missing.
pub open spec fn snapshot_lookup(s: SnapshotModel, id: Seq<char>) -> Result<RecordModel, Seq<char>> {
    match s.global_error {
        Some(g) => Err(g),
        None => match assoc_get(s.records, id) {
            Some(r) => Ok(r),
            None => match assoc_get(s.record_errors, id) {
                Some(e) => Err(e),
                None => Err("Missing metadata for current note"@),
            },
        },
    }
}

impl MetadataSnapshot {
    /// A snapshot of an index that could not be read: every lookup gives
    /// `error`.
    pub fn unavailable(error: &str) -> (r: Self)
        ensures
            r@ == (SnapshotModel { records: seq![], record_errors: seq![], global_error: Some(error@) }),
    {
        let r = MetadataSnapshot { records: Vec::new(), record_errors: Vec::new(), global_error: Some(error.to_owned()) };
        assert(pair_views(r.records@) =~= Seq::<(Seq<char>, RecordModel)>::empty());
        assert(pair_views(r.record_errors@) =~= Seq::<(Seq<char>, Seq<char>)>::empty());
        r
    }

    /// The record of `id`, or the message of why there is none
    /// (`snapshot_lookup`).
    pub fn record(&self, id: &str) -> (r: Result<&MetadataRecord, String>)
        ensures
            match r {
                Ok(rec) => snapshot_lookup(self@, id@) == Ok::<_, Seq<char>>(rec@),
                Err(e) => snapshot_lookup(self@, id@) == Err::<RecordModel, _>(e@),
            },
    {
        if let Some(error) = &self.global_error {
            return Err(error.clone());
        }
        match assoc_index_exec(&self.records, id) {
            Some(i) => {
                assert(pair_views(self.records@)[i as int] == (self.records@[i as int].0@, self.records@[i as int].1@));
                return Ok(&self.records[i].1);
            },
            None => {},
        }
        match assoc_index_exec(&self.record_errors, id) {
            Some(i) => {
                assert(pair_views(self.record_errors@)[i as int] == (
                    self.record_errors@[i as int].0@,
                    self.record_errors@[i as int].1@,
                ));
                Err(self.record_errors[i].1.clone())
            },
            None => Err("Missing metadata for current note".to_owned()),
        }
    }

    /// The records that were read, by note ID.
    pub fn into_records(self) -> (r: Vec<(String, MetadataRecord)>)
        ensures
            pair_views(r@) == self@.records,
    {
        self.records
    }

    /// Reads every record of an index (`snapshot_of`).
    pub fn from_index_table(root: &Vec<(String, TomlValue)>, metadata_fields: &[MetadataFieldConfig]) -> (r: Result<
        Self,
        IndexError,
    >)
        ensures
            match r {
                Ok(s) => snapshot_of(entry_models(root@), metadata_fields@) == Ok::<_, IndexErrorModel>(s@),
                Err(e) => snapshot_of(entry_models(root@), metadata_fields@) == Err::<SnapshotModel, _>(e@),
            },
    {
        let notes = match entry_lookup(root, "notes") {
            Some(TomlValue::Table(n)) => n,
            _ => return Err(IndexError::MissingNotes),
        };
        let ghost nm = entry_models(notes@);
        proof {
            lemma_entry_models(notes@);
        }
        let mut records: Vec<(String, MetadataRecord)> = Vec::new();
        let mut record_errors: Vec<(String, String)> = Vec::new();
        assert(pair_views(records@) =~= Seq::<(Seq<char>, RecordModel)>::empty());
        assert(pair_views(record_errors@) =~= Seq::<(Seq<char>, Seq<char>)>::empty());
        let mut k: usize = 0;
        while k < notes.len()
            invariant
                k <= notes.len(),
                nm == entry_models(notes@),
                nm.len() == notes.len(),
                forall|i: int| 0 <= i < notes.len() ==> #[trigger] nm[i] == (notes@[i].0@, toml_model(notes@[i].1)),
                snapshot_upto(nm, metadata_fields@, k as int) == (pair_views(records@), pair_views(record_errors@)),
            decreases notes.len() - k,
        {
            let id = &notes[k].0;
            assert(nm[k as int] == (id@, notes@[k as int].1@));
            if is_note_id(id.as_str()) {
                match &notes[k].1 {
                    TomlValue::Table(t) => match parse_record_for_read(t, metadata_fields) {
                        Ok(rec) => assoc_set_exec(&mut records, id.clone(), rec),
                        Err(e) => assoc_set_exec(&mut record_errors, id.clone(), e.message()),
                    },
                    _ => assoc_set_exec(&mut record_errors, id.clone(), "Invalid metadata for current note".to_owned()),
                }
            }
            k += 1;
        }
        let s = MetadataSnapshot { records, record_errors, global_error: None };
        Ok(s)
    }
}

} // verus!
