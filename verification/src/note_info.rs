//! Note information as JSON: a note's ID, path, title and metadata, with
//! the configured fields' defaults filled in, and the records that the
//! `notes` listing gives for each note file.
use vstd::prelude::*;
use crate::config::MetadataFieldConfig;
use crate::json_value::{
    copy_json, json_pretty, json_to_string_pretty, lemma_member_models, member_models, JsonModel, JsonValue,
};
use crate::metadata::index::{snapshot_lookup, MetadataSnapshot};
use crate::metadata::note_id_spec;
use crate::metadata::records::{merge_missing, merge_missing_values, MetadataRecord, RecordModel};
use crate::metadata_schema::{
    field_defaults_upto, metadata_defaults_table, names_of, str_array, str_array_exec, toml_to_json, toml_value_to_json,
};
use crate::parser::{checklist_status_name, note_header, parse_header, HeaderModel, NoteHeader, Relation};
use crate::text::{chars_of, push_str, string_from_chars};
use crate::toml_value::{copy_entries, entry_models, lemma_entry_models, toml_model, TomlModel, TomlValue};

verus! {

// ---------------------------------------------------------------------------
// JSON members
// ---------------------------------------------------------------------------

/// The index of the first member of `key`, from `k`.
pub open spec fn member_index(ms: Seq<(Seq<char>, JsonModel)>, key: Seq<char>, k: int) -> Option<int>
    decreases ms.len() - k,
{
    if k < 0 || k >= ms.len() {
        None
    } else if ms[k].0 == key {
        Some(k)
    } else {
        member_index(ms, key, k + 1)
    }
}

/// `ms` with `key` set to `v`: in place where present, else at the end (as
/// an insert into a JSON map).
pub open spec fn json_set(ms: Seq<(Seq<char>, JsonModel)>, key: Seq<char>, v: JsonModel) -> Seq<(Seq<char>, JsonModel)> {
    match member_index(ms, key, 0) {
        Some(i) => ms.update(i, (key, v)),
        None => ms.push((key, v)),
    }
}

fn json_set_exec(ms: &mut Vec<(String, JsonValue)>, key: String, v: JsonValue)
    ensures
        member_models(final(ms)@) == json_set(member_models(old(ms)@), key@, v@),
{
    let ghost mm = member_models(ms@);
    let ghost kv = key@;
    let ghost vv = v@;
    proof {
        lemma_member_models(ms@);
    }
    let mut k: usize = 0;
    while k < ms.len()
        invariant
            k <= ms.len(),
            mm == member_models(ms@),
            mm == member_models(old(ms)@),
            mm.len() == ms.len(),
            forall|i: int| 0 <= i < ms.len() ==> #[trigger] mm[i] == (ms@[i].0@, ms@[i].1@),
            member_index(mm, kv, 0) == member_index(mm, kv, k as int),
            kv == key@,
            vv == v@,
        decreases ms.len() - k,
    {
        if crate::text::str_eq(ms[k].0.as_str(), key.as_str()) {
            ms.set(k, (key, v));
            proof {
                lemma_member_models(ms@);
                assert(member_models(ms@) =~= mm.update(k as int, (kv, vv)));
            }
            return;
        }
        k += 1;
    }
    let ghost before = ms@;
    ms.push((key, v));
    proof {
        lemma_member_models(ms@);
        assert(member_models(ms@) =~= mm.push((kv, vv)));
    }
}

// ---------------------------------------------------------------------------
// Note information
// ---------------------------------------------------------------------------

/// A record's non-core entries completed with the configured fields'
/// defaults (a value that is there stays; tables are completed key by key).
pub open spec fn merged_extra(rec: RecordModel, fields: Seq<MetadataFieldConfig>) -> Seq<(Seq<char>, TomlModel)> {
    merge_missing(rec.extra, field_defaults_upto(fields, fields.len() as int))
}

/// The non-core metadata of a record with the defaults filled in
/// (`merged_extra`).
pub fn merged_extra_metadata(parsed: &MetadataRecord, metadata_fields: &[MetadataFieldConfig]) -> (r: Vec<(String, TomlValue)>)
    ensures
        entry_models(r@) == merged_extra(parsed@, metadata_fields@),
{
    let mut merged = copy_entries(&parsed.extra);
    let defaults = metadata_defaults_table(metadata_fields);
    merge_missing_values(&mut merged, &defaults);
    merged
}

pub open spec fn relation_name(r: Relation) -> Seq<char> {
    match r {
        Relation::Active => "active"@,
        Relation::Archived => "archived"@,
        Relation::Legacy => "legacy"@,
    }
}

/// The core fields of a record as JSON members.
pub open spec fn core_members(rec: RecordModel) -> Seq<(Seq<char>, JsonModel)> {
    seq![
        ("schema-version"@, JsonModel::Int(rec.schema_version as i64)),
        ("aliases"@, JsonModel::Array(str_array(rec.aliases))),
        ("abstract"@, JsonModel::Str(match rec.abstract_text {
            Some(s) => s,
            None => seq![],
        })),
        ("keywords"@, JsonModel::Array(str_array(rec.keywords))),
        ("generated"@, JsonModel::Bool(rec.generated)),
        ("checklist-status"@, JsonModel::Str(checklist_status_name(rec.checklist_status))),
        ("relation"@, JsonModel::Str(relation_name(rec.relation))),
        ("relation-target"@, JsonModel::Array(str_array(rec.relation_target))),
    ]
}

/// `ms` with each entry of `es[..n]` set, as JSON.
pub open spec fn set_all_json(ms: Seq<(Seq<char>, JsonModel)>, es: Seq<(Seq<char>, TomlModel)>, n: int) -> Seq<
    (Seq<char>, JsonModel),
>
    decreases n,
{
    if n <= 0 {
        ms
    } else {
        json_set(set_all_json(ms, es, n - 1), es[n - 1].0, toml_to_json(es[n - 1].1))
    }
}

/// The metadata of a note: the core fields, then the non-core entries with
/// the defaults filled in.
pub open spec fn metadata_members(rec: RecordModel, fields: Seq<MetadataFieldConfig>) -> Seq<(Seq<char>, JsonModel)> {
    let x = merged_extra(rec, fields);
    set_all_json(core_members(rec), x, x.len() as int)
}

/// The information of a note.
pub open spec fn note_info_members(
    id: Seq<char>,
    path: Seq<char>,
    title: Seq<char>,
    rec: RecordModel,
    fields: Seq<MetadataFieldConfig>,
) -> Seq<(Seq<char>, JsonModel)> {
    seq![
        ("id"@, JsonModel::Str(id)),
        ("path"@, JsonModel::Str(path)),
        ("title"@, JsonModel::Str(title)),
        ("metadata"@, JsonModel::Object(metadata_members(rec, fields))),
    ]
}

pub open spec fn note_info_doc(
    id: Seq<char>,
    path: Seq<char>,
    title: Seq<char>,
    rec: RecordModel,
    fields: Seq<MetadataFieldConfig>,
) -> JsonModel {
    JsonModel::Object(note_info_members(id, path, title, rec, fields))
}

fn str_value(s: &str) -> (r: JsonValue)
    ensures
        r@ == JsonModel::Str(s@),
{
    JsonValue::Str(s.to_owned())
}

fn core_members_exec(parsed: &MetadataRecord) -> (r: Vec<(String, JsonValue)>)
    ensures
        member_models(r@) == core_members(parsed@),
{
    let mut ms: Vec<(String, JsonValue)> = crate::metadata_schema::empty_members();
    let abs = match &parsed.abstract_text {
        Some(s) => JsonValue::Str(s.clone()),
        None => JsonValue::Str(String::new()),
    };
    let rel = match parsed.relation {
        Relation::Active => "active",
        Relation::Archived => "archived",
        Relation::Legacy => "legacy",
    };
    crate::metadata_schema::push_member(&mut ms, "schema-version", JsonValue::Int(parsed.schema_version as i64));
    crate::metadata_schema::push_member(&mut ms, "aliases", JsonValue::Array(str_array_exec(&parsed.aliases)));
    crate::metadata_schema::push_member(&mut ms, "abstract", abs);
    crate::metadata_schema::push_member(&mut ms, "keywords", JsonValue::Array(str_array_exec(&parsed.keywords)));
    crate::metadata_schema::push_member(&mut ms, "generated", JsonValue::Bool(parsed.generated));
    crate::metadata_schema::push_member(&mut ms, "checklist-status", str_value(parsed.checklist_status.as_str()));
    crate::metadata_schema::push_member(&mut ms, "relation", str_value(rel));
    crate::metadata_schema::push_member(
        &mut ms,
        "relation-target",
        JsonValue::Array(str_array_exec(&parsed.relation_target)),
    );
    assert(member_models(ms@) =~= core_members(parsed@));
    ms
}

/// The information of a note as JSON (`note_info_doc`).
pub fn build_note_info_value(
    id: &str,
    path: &str,
    header: &NoteHeader,
    parsed: &MetadataRecord,
    metadata_fields: &[MetadataFieldConfig],
) -> (r: JsonValue)
    ensures
        r@ == note_info_doc(id@, path@, header.title@, parsed@, metadata_fields@),
{
    let mut meta = core_members_exec(parsed);
    let extra = merged_extra_metadata(parsed, metadata_fields);
    let ghost xm = entry_models(extra@);
    proof {
        lemma_entry_models(extra@);
    }
    let mut k: usize = 0;
    while k < extra.len()
        invariant
            k <= extra.len(),
            xm == entry_models(extra@),
            xm == merged_extra(parsed@, metadata_fields@),
            xm.len() == extra.len(),
            forall|i: int| 0 <= i < extra.len() ==> #[trigger] xm[i] == (extra@[i].0@, toml_model(extra@[i].1)),
            member_models(meta@) == set_all_json(core_members(parsed@), xm, k as int),
        decreases extra.len() - k,
    {
        assert(xm[k as int] == (extra@[k as int].0@, extra@[k as int].1@));
        json_set_exec(&mut meta, extra[k].0.clone(), toml_value_to_json(&extra[k].1));
        k += 1;
    }
    let mut top: Vec<(String, JsonValue)> = crate::metadata_schema::empty_members();
    crate::metadata_schema::push_member(&mut top, "id", str_value(id));
    crate::metadata_schema::push_member(&mut top, "path", str_value(path));
    crate::metadata_schema::push_member(&mut top, "title", str_value(header.title.as_str()));
    crate::metadata_schema::push_member(&mut top, "metadata", JsonValue::Object(meta));
    assert(member_models(top@) =~= note_info_members(id@, path@, header.title@, parsed@, metadata_fields@));
    JsonValue::Object(top)
}

/// The header of a note that must carry `id`, or why it cannot be read.
pub open spec fn note_info_header(id: Seq<char>, content: Seq<char>) -> Result<HeaderModel, Seq<char>> {
    match note_header(content) {
        None => Err("Failed to parse note "@ + id + ": missing or invalid title/metadata binding"@),
        Some(h) => if h.id != id {
            Err("Failed to parse note "@ + id + ": title ID does not match current note"@)
        } else {
            Ok(h)
        },
    }
}

fn parse_failure(id: &str, why: &str) -> (r: String)
    ensures
        r@ == "Failed to parse note "@ + id@ + why@,
{
    let mut out: Vec<char> = Vec::new();
    push_str(&mut out, "Failed to parse note ");
    push_str(&mut out, id);
    push_str(&mut out, why);
    string_from_chars(&out)
}

/// Reads the header of the note `id` (`note_info_header`).
pub fn parse_note_info_content(id: &str, content: &str) -> (r: Result<NoteHeader, String>)
    ensures
        match r {
            Ok(h) => note_info_header(id@, content@) == Ok::<_, Seq<char>>(h@),
            Err(e) => note_info_header(id@, content@) == Err::<HeaderModel, _>(e@),
        },
{
    match parse_header(content) {
        None => Err(parse_failure(id, ": missing or invalid title/metadata binding")),
        Some(h) => if !crate::text::str_eq(h.id.as_str(), id) {
            Err(parse_failure(id, ": title ID does not match current note"))
        } else {
            Ok(h)
        },
    }
}

/// The information of the note `id` read from its content, or why its
/// header cannot be read.
pub fn build_note_info_value_from_content(
    id: &str,
    path: &str,
    content: &str,
    record: &MetadataRecord,
    metadata_fields: &[MetadataFieldConfig],
) -> (r: Result<JsonValue, String>)
    ensures
        match r {
            Ok(v) => note_info_header(id@, content@) matches Ok(h) && v@ == note_info_doc(
                id@,
                path@,
                h.title,
                record@,
                metadata_fields@,
            ),
            Err(e) => note_info_header(id@, content@) == Err::<HeaderModel, _>(e@),
        },
{
    let header = match parse_note_info_content(id, content) {
        Ok(h) => h,
        Err(e) => return Err(e),
    };
    Ok(build_note_info_value(id, path, &header, record, metadata_fields))
}

/// The pretty JSON of a note's information with its content.
pub fn build_note_info_json(
    id: &str,
    path: &str,
    header: &NoteHeader,
    parsed: &MetadataRecord,
    metadata_fields: &[MetadataFieldConfig],
    content: &str,
) -> (r: Option<String>)
    ensures
        ({
            let doc = JsonModel::Object(
                json_set(
                    note_info_members(id@, path@, header.title@, parsed@, metadata_fields@),
                    "content"@,
                    JsonModel::Str(content@),
                ),
            );
            match r {
                Some(s) => json_pretty(doc) == Some(s@),
                None => json_pretty(doc) is None,
            }
        }),
{
    let v = build_note_info_value(id, path, header, parsed, metadata_fields);
    let mut members = match v {
        JsonValue::Object(ms) => ms,
        _ => Vec::new(),
    };
    json_set_exec(&mut members, "content".to_owned(), str_value(content));
    json_to_string_pretty(&JsonValue::Object(members))
}

// ---------------------------------------------------------------------------
// File facts
// ---------------------------------------------------------------------------

/// What the listing shows of a note file: its size, and its modification
/// time in whole seconds since the Unix epoch where the system gives one.
#[derive(Debug, Clone, Copy, PartialEq, Eq, Structural)]
pub struct FileStat {
    pub size: u64,
    pub mtime_secs: Option<u64>,
}

/// What tells a changed note file from an unchanged one: its size and its
/// modification time in nanoseconds.
#[derive(Debug, Clone, Copy, PartialEq, Eq, Structural)]
pub struct FileFingerprint {
    pub size: u64,
    pub modified_nanos: u64,
}

/// An object with the file's size and modification time set; anything
/// else, or no stat, stays as it is.
pub open spec fn with_file_stat(v: JsonModel, stat: Option<FileStat>) -> JsonModel {
    match (v, stat) {
        (JsonModel::Object(ms), Some(st)) => {
            let a = json_set(ms, "size"@, JsonModel::UInt(st.size));
            JsonModel::Object(
                match st.mtime_secs {
                    Some(t) => json_set(a, "mtime"@, JsonModel::UInt(t)),
                    None => a,
                },
            )
        },
        _ => v,
    }
}

/// Sets the file's size and modification time on an object
/// (`with_file_stat`).
pub fn add_file_stat(value: &mut JsonValue, stat: Option<FileStat>)
    ensures
        final(value)@ == with_file_stat(old(value)@, stat),
{
    match stat {
        None => {},
        Some(st) => match value {
            JsonValue::Object(ms) => {
                json_set_exec(ms, "size".to_owned(), JsonValue::UInt(st.size));
                match st.mtime_secs {
                    Some(t) => json_set_exec(ms, "mtime".to_owned(), JsonValue::UInt(t)),
                    None => {},
                }
            },
            _ => {},
        },
    }
}

/// The record of a note that cannot be listed: empty title and metadata,
/// and the error.
pub open spec fn error_doc(id: Seq<char>, path: Seq<char>, message: Seq<char>, stat: Option<FileStat>) -> JsonModel {
    with_file_stat(
        JsonModel::Object(
            seq![
                ("id"@, JsonModel::Str(id)),
                ("path"@, JsonModel::Str(path)),
                ("title"@, JsonModel::Str(seq![])),
                ("metadata"@, JsonModel::Object(seq![])),
                ("error"@, JsonModel::Str(message)),
            ],
        ),
        stat,
    )
}

/// The record of a note that cannot be listed (`error_doc`).
pub fn note_error_value(id: &str, path: &str, message: &str, stat: Option<FileStat>) -> (r: JsonValue)
    ensures
        r@ == error_doc(id@, path@, message@, stat),
{
    let mut top: Vec<(String, JsonValue)> = crate::metadata_schema::empty_members();
    crate::metadata_schema::push_member(&mut top, "id", str_value(id));
    crate::metadata_schema::push_member(&mut top, "path", str_value(path));
    crate::metadata_schema::push_member(&mut top, "title", JsonValue::Str(String::new()));
    crate::metadata_schema::push_member(
        &mut top,
        "metadata",
        JsonValue::Object(crate::metadata_schema::empty_members()),
    );
    crate::metadata_schema::push_member(&mut top, "error", str_value(message));
    assert(member_models(top@) =~= seq![
        ("id"@, JsonModel::Str(id@)),
        ("path"@, JsonModel::Str(path@)),
        ("title"@, JsonModel::Str(seq![])),
        ("metadata"@, JsonModel::Object(seq![])),
        ("error"@, JsonModel::Str(message@)),
    ]);
    let mut v = JsonValue::Object(top);
    assert(v@ == JsonModel::Object(
        seq![
            ("id"@, JsonModel::Str(id@)),
            ("path"@, JsonModel::Str(path@)),
            ("title"@, JsonModel::Str(seq![])),
            ("metadata"@, JsonModel::Object(seq![])),
            ("error"@, JsonModel::Str(message@)),
        ],
    ));
    add_file_stat(&mut v, stat);
    v
}

/// The note ID of a file name `ID.typ` with a ten-digit ID.
pub open spec fn note_file_id_spec(name: Seq<char>) -> Option<Seq<char>> {
    if name.len() == 14 && name.skip(10) == ".typ"@ && note_id_spec(name.take(10)) {
        Some(name.take(10))
    } else {
        None
    }
}

/// The note ID of a note file's name (`note_file_id_spec`): the stem of a
/// `.typ` file, where it is ten ASCII digits.
pub fn note_file_id(name: &str) -> (r: Option<String>)
    ensures
        match note_file_id_spec(name@) {
            Some(id) => r is Some && r->0@ == id,
            None => r is None,
        },
{
    let cs = chars_of(name);
    if cs.len() != 14 {
        return None;
    }
    let stem = crate::text::string_from_range(&cs, 0, 10);
    let ext = crate::text::string_from_range(&cs, 10, 14);
    assert(stem@ =~= name@.take(10));
    assert(ext@ =~= name@.skip(10));
    if crate::text::str_eq(ext.as_str(), ".typ") && crate::metadata::is_note_id(stem.as_str()) {
        Some(stem)
    } else {
        None
    }
}

// ---------------------------------------------------------------------------
// Listing records
// ---------------------------------------------------------------------------

/// The listing record of one note: its JSON, the warning to show, and the
/// fingerprint under which it may be cached.
#[derive(Debug)]
pub struct NoteRecordResult {
    pub id: String,
    pub value: JsonValue,
    pub warning: Option<String>,
    pub fingerprint: Option<FileFingerprint>,
}

pub struct NoteRecordModel {
    pub id: Seq<char>,
    pub value: JsonModel,
    pub warning: Option<Seq<char>>,
    pub fingerprint: Option<FileFingerprint>,
}

pub open spec fn opt_string(o: Option<String>) -> Option<Seq<char>> {
    match o {
        Some(s) => Some(s@),
        None => None,
    }
}

impl View for NoteRecordResult {
    type V = NoteRecordModel;

    open spec fn view(&self) -> NoteRecordModel {
        NoteRecordModel {
            id: self.id@,
            value: self.value@,
            warning: opt_string(self.warning),
            fingerprint: self.fingerprint,
        }
    }
}

impl NoteRecordResult {
    /// A record without a warning.
    pub fn ok(id: &str, value: JsonValue, fingerprint: Option<FileFingerprint>) -> (r: Self)
        ensures
            r@ == (NoteRecordModel { id: id@, value: value@, warning: None, fingerprint }),
    {
        NoteRecordResult { id: id.to_owned(), value, warning: None, fingerprint }
    }

    /// A record with a warning.
    pub fn warning(id: &str, value: JsonValue, warning: String, fingerprint: Option<FileFingerprint>) -> (r: Self)
        ensures
            r@ == (NoteRecordModel { id: id@, value: value@, warning: Some(warning@), fingerprint }),
    {
        NoteRecordResult { id: id.to_owned(), value, warning: Some(warning), fingerprint }
    }
}

/// A listing record kept from an earlier run, with the fingerprint of the
/// file it was made from.
#[derive(Debug)]
pub struct CachedNoteRecord {
    pub fingerprint: FileFingerprint,
    pub value: JsonValue,
    pub warning: Option<String>,
}

/// What was read of a note file: its content, what the listing shows of
/// it, and its fingerprint.
#[derive(Debug)]
pub struct NoteRead {
    pub content: String,
    pub stat: Option<FileStat>,
    pub fingerprint: Option<FileFingerprint>,
}

/// The listing record of a note: an error record where the file cannot be
/// read, the metadata snapshot has no record for it, or its header cannot
/// be read; else its information with the file's size and time.
pub open spec fn note_record_spec(
    id: Seq<char>,
    path: Seq<char>,
    read: Result<(Seq<char>, Option<FileStat>, Option<FileFingerprint>), Seq<char>>,
    lookup: Result<RecordModel, Seq<char>>,
    fields: Seq<MetadataFieldConfig>,
) -> NoteRecordModel {
    match read {
        Err(e) => {
            let m = "reading "@ + path + ": "@ + e;
            NoteRecordModel { id, value: error_doc(id, path, m, None), warning: Some(m), fingerprint: None }
        },
        Ok((content, stat, fp)) => match lookup {
            Err(m) => NoteRecordModel {
                id,
                value: error_doc(id, path, m, stat),
                warning: Some(path + ": "@ + m),
                fingerprint: fp,
            },
            Ok(rec) => match note_info_header(id, content) {
                Ok(h) => NoteRecordModel {
                    id,
                    value: with_file_stat(note_info_doc(id, path, h.title, rec, fields), stat),
                    warning: None,
                    fingerprint: fp,
                },
                Err(m) => NoteRecordModel {
                    id,
                    value: error_doc(id, path, m, stat),
                    warning: Some(path + ": "@ + m),
                    fingerprint: fp,
                },
            },
        },
    }
}

pub open spec fn read_model(read: &Result<NoteRead, String>) -> Result<
    (Seq<char>, Option<FileStat>, Option<FileFingerprint>),
    Seq<char>,
> {
    match read {
        Ok(r) => Ok((r.content@, r.stat, r.fingerprint)),
        Err(e) => Err(e@),
    }
}

fn join3(a: &str, b: &str, c: &str) -> (r: String)
    ensures
        r@ == a@ + b@ + c@,
{
    let mut out: Vec<char> = Vec::new();
    push_str(&mut out, a);
    push_str(&mut out, b);
    push_str(&mut out, c);
    assert(out@ =~= a@ + b@ + c@);
    string_from_chars(&out)
}

/// The listing record of the note `id` at `path` (`note_record_spec`);
/// `read` is the outcome of reading the file, its error as text.
pub fn note_record(
    id: &str,
    path: &str,
    read: &Result<NoteRead, String>,
    snapshot: &MetadataSnapshot,
    metadata_fields: &[MetadataFieldConfig],
) -> (r: NoteRecordResult)
    ensures
        r@ == note_record_spec(id@, path@, read_model(read), snapshot_lookup(snapshot@, id@), metadata_fields@),
{
    match read {
        Err(e) => {
            let prefix = join3("reading ", path, ": ");
            let message = join3(prefix.as_str(), e.as_str(), "");
            proof {
                reveal_strlit("");
            }
            assert(message@ =~= "reading "@ + path@ + ": "@ + e@);
            NoteRecordResult::warning(id, note_error_value(id, path, message.as_str(), None), message, None)
        },
        Ok(nr) => match snapshot.record(id) {
            Err(message) => {
                let w = join3(path, ": ", message.as_str());
                NoteRecordResult::warning(id, note_error_value(id, path, message.as_str(), nr.stat), w, nr.fingerprint)
            },
            Ok(record) => match build_note_info_value_from_content(id, path, nr.content.as_str(), record, metadata_fields) {
                Ok(value) => {
                    let mut value = value;
                    add_file_stat(&mut value, nr.stat);
                    NoteRecordResult::ok(id, value, nr.fingerprint)
                },
                Err(message) => {
                    let w = join3(path, ": ", message.as_str());
                    NoteRecordResult::warning(
                        id,
                        note_error_value(id, path, message.as_str(), nr.stat),
                        w,
                        nr.fingerprint,
                    )
                },
            },
        },
    }
}

/// The cached record of a note, where its file's fingerprint is the one
/// it was cached under.
pub fn cached_note_record(id: &str, cached: Option<&CachedNoteRecord>, fingerprint: Option<FileFingerprint>) -> (r: Option<
    NoteRecordResult,
>)
    ensures
        match (cached, fingerprint) {
            (Some(c), Some(f)) => if c.fingerprint == f {
                r is Some && r->0@ == (NoteRecordModel {
                    id: id@,
                    value: c.value@,
                    warning: opt_string(c.warning),
                    fingerprint: Some(f),
                })
            } else {
                r is None
            },
            _ => r is None,
        },
{
    match (cached, fingerprint) {
        (Some(c), Some(f)) => {
            if c.fingerprint.size == f.size && c.fingerprint.modified_nanos == f.modified_nanos {
                let w = match &c.warning {
                    Some(x) => Some(x.clone()),
                    None => None,
                };
                Some(NoteRecordResult { id: id.to_owned(), value: copy_json(&c.value), warning: w, fingerprint: Some(f) })
            } else {
                None
            }
        },
        _ => None,
    }
}

/// The records to cache: those made with a fingerprint, by note ID.
pub open spec fn cache_entries_upto(rs: Seq<NoteRecordModel>, n: int) -> Seq<(Seq<char>, NoteRecordModel)>
    decreases n,
{
    if n <= 0 {
        seq![]
    } else if rs[n - 1].fingerprint is Some {
        cache_entries_upto(rs, n - 1).push((rs[n - 1].id, rs[n - 1]))
    } else {
        cache_entries_upto(rs, n - 1)
    }
}

pub open spec fn result_models(rs: Seq<NoteRecordResult>) -> Seq<NoteRecordModel> {
    rs.map_values(|r: NoteRecordResult| r@)
}

pub open spec fn cached_model(c: CachedNoteRecord) -> NoteRecordModel {
    NoteRecordModel { id: seq![], value: c.value@, warning: opt_string(c.warning), fingerprint: Some(c.fingerprint) }
}

/// The cache entries of a run (`cache_entries_upto`), each with the
/// fingerprint, the value and the warning of its record.
pub fn next_cache_entries(results: &Vec<NoteRecordResult>) -> (r: Vec<(String, CachedNoteRecord)>)
    ensures
        r@.len() == cache_entries_upto(result_models(results@), results.len() as int).len(),
        forall|i: int|
            0 <= i < r@.len() ==> {
                let e = #[trigger] cache_entries_upto(result_models(results@), results.len() as int)[i];
                &&& r@[i].0@ == e.0
                &&& r@[i].1.value@ == e.1.value
                &&& opt_string(r@[i].1.warning) == e.1.warning
                &&& Some(r@[i].1.fingerprint) == e.1.fingerprint
            },
{
    let ghost rm = result_models(results@);
    let mut out: Vec<(String, CachedNoteRecord)> = Vec::new();
    let mut k: usize = 0;
    while k < results.len()
        invariant
            k <= results.len(),
            rm == result_models(results@),
            rm.len() == results.len(),
            out@.len() == cache_entries_upto(rm, k as int).len(),
            forall|i: int|
                0 <= i < out@.len() ==> {
                    let e = #[trigger] cache_entries_upto(rm, k as int)[i];
                    &&& out@[i].0@ == e.0
                    &&& out@[i].1.value@ == e.1.value
                    &&& opt_string(out@[i].1.warning) == e.1.warning
                    &&& Some(out@[i].1.fingerprint) == e.1.fingerprint
                },
        decreases results.len() - k,
    {
        let res = &results[k];
        assert(rm[k as int] == res@);
        match res.fingerprint {
            Some(f) => {
                let w = match &res.warning {
                    Some(x) => Some(x.clone()),
                    None => None,
                };
                let c = CachedNoteRecord { fingerprint: f, value: copy_json(&res.value), warning: w };
                out.push((res.id.clone(), c));
            },
            None => {},
        }
        k += 1;
    }
    out
}

/// `a` sorts before `b` by note ID, then by path.
pub open spec fn note_path_lt(a: (Seq<char>, Seq<char>), b: (Seq<char>, Seq<char>)) -> bool {
    crate::cycle::str_lt(a.0, b.0) || (a.0 == b.0 && crate::cycle::str_lt(a.1, b.1))
}

/// `s` with `e` inserted after every pair that does not sort after it.
pub open spec fn insert_note_path(s: Seq<(Seq<char>, Seq<char>)>, e: (Seq<char>, Seq<char>)) -> Seq<(Seq<char>, Seq<char>)>
    decreases s.len(),
{
    if s.len() == 0 {
        seq![e]
    } else if note_path_lt(e, s.last()) {
        insert_note_path(s.drop_last(), e).push(s.last())
    } else {
        s.push(e)
    }
}

/// The pairs of `ps[..n]` sorted by note ID, then path.
pub open spec fn sort_note_paths_upto(ps: Seq<(Seq<char>, Seq<char>)>, n: int) -> Seq<(Seq<char>, Seq<char>)>
    decreases n,
{
    if n <= 0 {
        seq![]
    } else {
        insert_note_path(sort_note_paths_upto(ps, n - 1), ps[n - 1])
    }
}

pub open spec fn path_pairs(v: Seq<(String, String)>) -> Seq<(Seq<char>, Seq<char>)> {
    v.map_values(|p: (String, String)| (p.0@, p.1@))
}

fn note_path_lt_exec(a: &(String, String), b: &(String, String)) -> (r: bool)
    ensures
        r == note_path_lt((a.0@, a.1@), (b.0@, b.1@)),
{
    crate::cycle::str_lt_exec(a.0.as_str(), b.0.as_str()) || (crate::text::str_eq(a.0.as_str(), b.0.as_str())
        && crate::cycle::str_lt_exec(a.1.as_str(), b.1.as_str()))
}

/// Note files as (ID, path) pairs, sorted by ID, then path
/// (`sort_note_paths_upto`).
pub fn sort_note_paths(notes: Vec<(String, String)>) -> (r: Vec<(String, String)>)
    ensures
        path_pairs(r@) == sort_note_paths_upto(path_pairs(notes@), notes.len() as int),
{
    let ghost pm = path_pairs(notes@);
    let mut out: Vec<(String, String)> = Vec::new();
    assert(path_pairs(out@) =~= Seq::<(Seq<char>, Seq<char>)>::empty());
    let mut k: usize = 0;
    while k < notes.len()
        invariant
            k <= notes.len(),
            pm == path_pairs(notes@),
            pm.len() == notes.len(),
            path_pairs(out@) == sort_note_paths_upto(pm, k as int),
        decreases notes.len() - k,
    {
        let e = (notes[k].0.clone(), notes[k].1.clone());
        let ghost ev = (e.0@, e.1@);
        assert(pm[k as int] == ev);
        let ghost s = path_pairs(out@);
        proof {
            assert(s.take(s.len() as int) =~= s);
            assert(s.skip(s.len() as int) =~= Seq::<(Seq<char>, Seq<char>)>::empty());
        }
        let mut j: usize = out.len();
        while j > 0 && note_path_lt_exec(&e, &out[j - 1])
            invariant
                j <= out.len(),
                s == path_pairs(out@),
                s.len() == out.len(),
                ev == (e.0@, e.1@),
                insert_note_path(s, ev) == insert_note_path(s.take(j as int), ev) + s.skip(j as int),
            decreases j,
        {
            proof {
                let tj = s.take(j as int);
                assert(tj.drop_last() =~= s.take(j - 1));
                assert(tj.last() == s[j - 1]);
                assert(s[j - 1] == (out@[j - 1].0@, out@[j - 1].1@));
                assert(insert_note_path(s.take(j - 1), ev).push(s[j - 1]) + s.skip(j as int) =~= insert_note_path(
                    s.take(j - 1),
                    ev,
                ) + s.skip(j - 1));
            }
            j -= 1;
        }
        proof {
            if j == 0 {
                assert(s.take(0) =~= Seq::<(Seq<char>, Seq<char>)>::empty());
                assert(seq![ev] + s.skip(0) =~= s.insert(0, ev));
            } else {
                let tj = s.take(j as int);
                assert(tj.last() == s[j - 1]);
                assert(s[j - 1] == (out@[j - 1].0@, out@[j - 1].1@));
                assert(insert_note_path(tj, ev) == tj.push(ev));
                assert(tj.push(ev) + s.skip(j as int) =~= s.insert(j as int, ev));
            }
        }
        out.insert(j, e);
        assert(path_pairs(out@) =~= s.insert(j as int, ev));
        k += 1;
    }
    out
}

} // verus!
