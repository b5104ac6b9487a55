//! The metadata schema documents: the known fields, their defaults, and a
//! JSON Schema, written as JSON or TOML.
use vstd::prelude::*;
use crate::config::{MetadataFieldConfig, MetadataFieldKind};
use crate::json_value::{json_pretty, json_to_string_pretty, lemma_member_models, member_models, json_models, JsonModel, JsonValue};
use crate::parser::starts_with;
use crate::reconcile::observe::first_index;
use crate::text::{chars_of, push_str, string_from_chars};
use crate::toml_value::{
    copy_toml, entry_models, lemma_entry_models, lemma_toml_models, toml_model, toml_models, toml_pretty, toml_to_string_pretty,
    TomlModel, TomlValue,
};

verus! {

/// The output format of a schema document.
#[derive(Debug, Clone, Copy, PartialEq, Eq, Structural)]
pub enum MetadataSchemaFormat {
    Json,
    Toml,
}

/// A config source file: its scope, path and whether it was loaded.
#[derive(Debug)]
pub struct ConfigSource {
    pub scope: String,
    pub path: String,
    pub loaded: bool,
}

/// A metadata field as the schema documents describe it.
#[derive(Debug)]
pub struct FieldSpec {
    pub path: String,
    pub kind: String,
    pub default: TomlValue,
    pub enum_values: Option<Vec<String>>,
    pub required: bool,
    pub core: bool,
}

pub struct FieldSpecModel {
    pub path: Seq<char>,
    pub kind: Seq<char>,
    pub default: TomlModel,
    pub enum_values: Option<Seq<Seq<char>>>,
    pub required: bool,
    pub core: bool,
}

pub open spec fn names_of(v: Seq<String>) -> Seq<Seq<char>> {
    v.map_values(|s: String| s@)
}

impl View for FieldSpec {
    type V = FieldSpecModel;

    open spec fn view(&self) -> FieldSpecModel {
        FieldSpecModel {
            path: self.path@,
            kind: self.kind@,
            default: self.default@,
            enum_values: match self.enum_values {
                Some(v) => Some(names_of(v@)),
                None => None,
            },
            required: self.required,
            core: self.core,
        }
    }
}

pub open spec fn spec_models(v: Seq<FieldSpec>) -> Seq<FieldSpecModel> {
    v.map_values(|f: FieldSpec| f@)
}

pub open spec fn core_spec(path: Seq<char>, kind: Seq<char>, default: TomlModel, enum_values: Option<Seq<Seq<char>>>) -> FieldSpecModel {
    FieldSpecModel { path, kind, default, enum_values, required: true, core: true }
}

/// The core metadata fields.
pub open spec fn core_field_models() -> Seq<FieldSpecModel> {
    seq![
        core_spec("schema-version"@, "integer"@, TomlModel::Integer(1), None),
        core_spec("aliases"@, "array-string"@, TomlModel::Array(seq![]), None),
        core_spec("abstract"@, "string"@, TomlModel::String(seq![]), None),
        core_spec("keywords"@, "array-string"@, TomlModel::Array(seq![]), None),
        core_spec("generated"@, "boolean"@, TomlModel::Boolean(true), None),
        core_spec("checklist-status"@, "string"@, TomlModel::String("none"@), Some(seq!["none"@, "todo"@, "wip"@, "done"@])),
        core_spec("relation"@, "string"@, TomlModel::String("active"@), Some(seq!["active"@, "archived"@, "legacy"@])),
        core_spec("relation-target"@, "array-string"@, TomlModel::Array(seq![]), None),
    ]
}

pub open spec fn kind_text(k: MetadataFieldKind) -> Seq<char> {
    match k {
        MetadataFieldKind::String => "string"@,
        MetadataFieldKind::Boolean => "boolean"@,
        MetadataFieldKind::ArrayString => "array-string"@,
    }
}

/// A config field as a field spec: optional, not core.
pub open spec fn config_spec(f: MetadataFieldConfig) -> FieldSpecModel {
    FieldSpecModel { path: f.path@, kind: kind_text(f.kind), default: f.default@, enum_values: None, required: false, core: false }
}

/// The core fields, then the config's fields in order.
pub open spec fn all_field_models(fields: Seq<MetadataFieldConfig>) -> Seq<FieldSpecModel> {
    core_field_models() + fields.map_values(|f: MetadataFieldConfig| config_spec(f))
}

fn strings(v: &[&str]) -> (r: Vec<String>)
    ensures
        names_of(r@) == v@.map_values(|s: &str| s@),
{
    let mut out: Vec<String> = Vec::new();
    let mut k: usize = 0;
    while k < v.len()
        invariant
            k <= v.len(),
            names_of(out@) == v@.map_values(|s: &str| s@).take(k as int),
        decreases v.len() - k,
    {
        let ghost before = out@;
        let x = v[k].to_owned();
        assert(x@ == v@[k as int]@);
        out.push(x);
        assert(out@ =~= before.push(x));
        assert(names_of(out@) =~= names_of(before).push(x@));
        assert(v@.map_values(|s: &str| s@).take(k + 1) =~= v@.map_values(|s: &str| s@).take(k as int).push(v@[k as int]@));
        k += 1;
    }
    assert(v@.map_values(|s: &str| s@).take(v.len() as int) =~= v@.map_values(|s: &str| s@));
    out
}

fn core_field(path: &str, kind: &str, default: TomlValue, enum_values: Option<Vec<String>>) -> (r: FieldSpec)
    ensures
        r.path@ == path@,
        r.kind@ == kind@,
        r.default == default,
        r.enum_values == enum_values,
        r.required && r.core,
{
    FieldSpec { path: path.to_owned(), kind: kind.to_owned(), default, enum_values, required: true, core: true }
}

/// The core metadata fields (`core_field_models`).
pub fn core_field_specs() -> (r: Vec<FieldSpec>)
    ensures
        spec_models(r@) == core_field_models(),
{
    let status = strings(&["none", "todo", "wip", "done"]);
    let relation = strings(&["active", "archived", "legacy"]);
    let r = vec![
        core_field("schema-version", "integer", TomlValue::Integer(1), None),
        core_field("aliases", "array-string", TomlValue::Array(Vec::new()), None),
        core_field("abstract", "string", TomlValue::String(String::new()), None),
        core_field("keywords", "array-string", TomlValue::Array(Vec::new()), None),
        core_field("generated", "boolean", TomlValue::Boolean(true), None),
        core_field("checklist-status", "string", TomlValue::String("none".to_owned()), Some(status)),
        core_field("relation", "string", TomlValue::String("active".to_owned()), Some(relation)),
        core_field("relation-target", "array-string", TomlValue::Array(Vec::new()), None),
    ];
    proof {
        reveal_strlit("");
        let e: Seq<TomlValue> = seq![];
        assert(toml_models(e) =~= Seq::<TomlModel>::empty());
        assert(seq!["none", "todo", "wip", "done"].map_values(|s: &str| s@) =~= seq!["none"@, "todo"@, "wip"@, "done"@]);
        assert(seq!["active", "archived", "legacy"].map_values(|s: &str| s@) =~= seq!["active"@, "archived"@, "legacy"@]);
    }
    assert(spec_models(r@) =~= core_field_models());
    r
}

fn kind_name(k: MetadataFieldKind) -> (r: &'static str)
    ensures
        r@ == kind_text(k),
{
    match k {
        MetadataFieldKind::String => "string",
        MetadataFieldKind::Boolean => "boolean",
        MetadataFieldKind::ArrayString => "array-string",
    }
}

/// The core fields, then the config's fields (`all_field_models`).
pub fn all_field_specs(fields: &[MetadataFieldConfig]) -> (r: Vec<FieldSpec>)
    ensures
        spec_models(r@) == all_field_models(fields@),
{
    let mut out = core_field_specs();
    let ghost start = spec_models(out@);
    let mut k: usize = 0;
    while k < fields.len()
        invariant
            k <= fields.len(),
            start == core_field_models(),
            spec_models(out@) == start + fields@.map_values(|f: MetadataFieldConfig| config_spec(f)).take(k as int),
        decreases fields.len() - k,
    {
        let f = &fields[k];
        let x = FieldSpec {
            path: f.path.clone(),
            kind: kind_name(f.kind).to_owned(),
            default: copy_toml(&f.default),
            enum_values: None,
            required: false,
            core: false,
        };
        let ghost before = spec_models(out@);
        out.push(x);
        assert(spec_models(out@) =~= before.push(config_spec(fields@[k as int])));
        assert(fields@.map_values(|f: MetadataFieldConfig| config_spec(f)).take(k + 1) =~= fields@.map_values(
            |f: MetadataFieldConfig| config_spec(f),
        ).take(k as int).push(config_spec(fields@[k as int])));
        k += 1;
    }
    assert(fields@.map_values(|f: MetadataFieldConfig| config_spec(f)).take(fields.len() as int) =~= fields@.map_values(
        |f: MetadataFieldConfig| config_spec(f),
    ));
    out
}

// ---------------------------------------------------------------------------
// Tables
// ---------------------------------------------------------------------------

/// The index of the first entry of `t` with key `key`, from `k`.
pub open spec fn key_index(t: Seq<(Seq<char>, TomlModel)>, key: Seq<char>, k: int) -> Option<int>
    decreases t.len() - k,
{
    if k < 0 || k >= t.len() {
        None
    } else if t[k].0 == key {
        Some(k)
    } else {
        key_index(t, key, k + 1)
    }
}

/// `t` with `key` set to `v`: in place where the key is present, else at
/// the end.
pub open spec fn table_set(t: Seq<(Seq<char>, TomlModel)>, key: Seq<char>, v: TomlModel) -> Seq<(Seq<char>, TomlModel)> {
    match key_index(t, key, 0) {
        Some(i) => t.update(i, (key, v)),
        None => t.push((key, v)),
    }
}

/// `t` with the value at a dotted path set to `v`, making the tables on
/// the way (a non-table on the way is replaced by a table).
pub open spec fn set_path(t: Seq<(Seq<char>, TomlModel)>, path: Seq<char>, v: TomlModel) -> Seq<(Seq<char>, TomlModel)>
    decreases path.len(),
{
    match first_index(path, '.', 0) {
        None => table_set(t, path, v),
        Some(i) => {
            proof {
                crate::reconcile::observe::lemma_first_index(path, '.', 0);
            }
            let head = path.take(i);
            let sub = match key_index(t, head, 0) {
                Some(j) => match t[j].1 {
                    TomlModel::Table(es) => es,
                    _ => seq![],
                },
                None => seq![],
            };
            table_set(t, head, TomlModel::Table(set_path(sub, path.skip(i + 1), v)))
        },
    }
}

/// The defaults of `fields[..n]`, each at its dotted path.
pub open spec fn field_defaults_upto(fields: Seq<MetadataFieldConfig>, n: int) -> Seq<(Seq<char>, TomlModel)>
    decreases n,
{
    if n <= 0 {
        seq![]
    } else {
        set_path(field_defaults_upto(fields, n - 1), fields[n - 1].path@, fields[n - 1].default@)
    }
}

/// The core fields' defaults.
pub open spec fn core_defaults_table() -> Seq<(Seq<char>, TomlModel)> {
    seq![
        ("schema-version"@, TomlModel::Integer(1)),
        ("aliases"@, TomlModel::Array(seq![])),
        ("abstract"@, TomlModel::String(seq![])),
        ("keywords"@, TomlModel::Array(seq![])),
        ("generated"@, TomlModel::Boolean(true)),
        ("checklist-status"@, TomlModel::String("none"@)),
        ("relation"@, TomlModel::String("active"@)),
        ("relation-target"@, TomlModel::Array(seq![])),
    ]
}

/// `t` with each entry of `es[..n]` set.
pub open spec fn set_all(t: Seq<(Seq<char>, TomlModel)>, es: Seq<(Seq<char>, TomlModel)>, n: int) -> Seq<(Seq<char>, TomlModel)>
    decreases n,
{
    if n <= 0 {
        t
    } else {
        table_set(set_all(t, es, n - 1), es[n - 1].0, es[n - 1].1)
    }
}

/// The default metadata table: the core defaults, then the config's
/// field defaults by top-level key.
pub open spec fn default_metadata(fields: Seq<MetadataFieldConfig>) -> Seq<(Seq<char>, TomlModel)> {
    let d = field_defaults_upto(fields, fields.len() as int);
    set_all(core_defaults_table(), d, d.len() as int)
}

proof fn lemma_entry_models_update(t: Seq<(String, TomlValue)>, i: int, e: (String, TomlValue))
    requires
        0 <= i < t.len(),
    ensures
        entry_models(t.update(i, e)) == entry_models(t).update(i, (e.0@, e.1@)),
{
    lemma_entry_models(t);
    lemma_entry_models(t.update(i, e));
    assert(entry_models(t.update(i, e)) =~= entry_models(t).update(i, (e.0@, e.1@)));
}

pub proof fn lemma_entry_models_update_pub(t: Seq<(String, TomlValue)>, i: int, e: (String, TomlValue))
    requires
        0 <= i < t.len(),
    ensures
        entry_models(t.update(i, e)) == entry_models(t).update(i, (e.0@, e.1@)),
{
    lemma_entry_models_update(t, i, e);
}

proof fn lemma_entry_models_push(t: Seq<(String, TomlValue)>, e: (String, TomlValue))
    ensures
        entry_models(t.push(e)) == entry_models(t).push((e.0@, e.1@)),
{
    assert(t.push(e).subrange(0, t.len() as int) =~= t);
}

/// `entry_value` finds the entry that `key_index` points at.
pub proof fn lemma_key_index_value(t: Seq<(Seq<char>, TomlModel)>, key: Seq<char>, j: int)
    requires
        0 <= j,
    ensures
        match key_index(t, key, j) {
            Some(i) => j <= i < t.len() && t[i].0 == key && crate::note_ops::entry_value(t, key, j) == Some(t[i].1),
            None => crate::note_ops::entry_value(t, key, j) is None,
        },
    decreases t.len() - j,
{
    if j < t.len() && t[j].0 != key {
        lemma_key_index_value(t, key, j + 1);
    }
}

/// Changing the value at an index, under a key that is there already or
/// differs from `key` at every index, does not move the first entry of
/// `key` (from `j`).
pub proof fn lemma_key_index_update(t: Seq<(Seq<char>, TomlModel)>, key: Seq<char>, i: int, e: (Seq<char>, TomlModel), j: int)
    requires
        0 <= i < t.len(),
        0 <= j,
        e.0 == t[i].0,
    ensures
        key_index(t.update(i, e), key, j) == key_index(t, key, j),
    decreases t.len() - j,
{
    if j < t.len() && t.update(i, e)[j].0 != key {
        lemma_key_index_update(t, key, i, e, j + 1);
    }
}

/// A pushed entry of another key does not change where `key` is found; one
/// of `key` is found where `key` was not.
pub proof fn lemma_key_index_push(t: Seq<(Seq<char>, TomlModel)>, key: Seq<char>, e: (Seq<char>, TomlModel), j: int)
    requires
        0 <= j <= t.len(),
    ensures
        key_index(t, key, j) is Some ==> key_index(t.push(e), key, j) == key_index(t, key, j),
        key_index(t, key, j) is None ==> key_index(t.push(e), key, j) == (if e.0 == key {
            Some(t.len() as int)
        } else {
            None
        }),
    decreases t.len() - j,
{
    if j < t.len() && t[j].0 != key {
        lemma_key_index_push(t, key, e, j + 1);
    } else if j == t.len() {
        assert(key_index(t.push(e), key, j + 1) is None);
    }
}

/// After `table_set`, the key holds the value set, and every other key
/// holds what it held.
pub proof fn lemma_table_set(t: Seq<(Seq<char>, TomlModel)>, key: Seq<char>, v: TomlModel, other: Seq<char>)
    ensures
        crate::note_ops::entry_value(table_set(t, key, v), key, 0) == Some(v),
        key_index(table_set(t, key, v), key, 0) is Some,
        other != key ==> crate::note_ops::entry_value(table_set(t, key, v), other, 0) == crate::note_ops::entry_value(
            t,
            other,
            0,
        ),
        other != key ==> key_index(table_set(t, key, v), other, 0) == key_index(t, other, 0),
{
    lemma_key_index_value(t, key, 0);
    lemma_key_index_value(t, other, 0);
    match key_index(t, key, 0) {
        Some(i) => {
            lemma_key_index_update(t, key, i, (key, v), 0);
            lemma_key_index_update(t, other, i, (key, v), 0);
        },
        None => {
            lemma_key_index_push(t, key, (key, v), 0);
            lemma_key_index_push(t, other, (key, v), 0);
        },
    }
    lemma_key_index_value(table_set(t, key, v), key, 0);
    lemma_key_index_value(table_set(t, key, v), other, 0);
}

pub proof fn lemma_entry_models_push_pub(t: Seq<(String, TomlValue)>, e: (String, TomlValue))
    ensures
        entry_models(t.push(e)) == entry_models(t).push((e.0@, e.1@)),
{
    lemma_entry_models_push(t, e);
}

pub(crate) fn key_index_exec(t: &Vec<(String, TomlValue)>, key: &str) -> (r: Option<usize>)
    ensures
        r matches Some(i) ==> key_index(entry_models(t@), key@, 0) == Some(i as int) && i < t.len(),
        r is None ==> key_index(entry_models(t@), key@, 0) is None,
{
    let ghost tm = entry_models(t@);
    proof {
        lemma_entry_models(t@);
    }
    let mut k: usize = 0;
    while k < t.len()
        invariant
            k <= t.len(),
            tm == entry_models(t@),
            tm.len() == t.len(),
            forall|i: int| 0 <= i < t.len() ==> #[trigger] tm[i] == (t@[i].0@, toml_model(t@[i].1)),
            key_index(tm, key@, 0) == key_index(tm, key@, k as int),
        decreases t.len() - k,
    {
        if crate::text::str_eq(t[k].0.as_str(), key) {
            return Some(k);
        }
        k += 1;
    }
    None
}

pub(crate) fn table_set_exec(t: &mut Vec<(String, TomlValue)>, key: String, v: TomlValue)
    ensures
        entry_models(final(t)@) == table_set(entry_models(old(t)@), key@, v@),
{
    let ghost kv = key@;
    let ghost vv = v@;
    match key_index_exec(t, key.as_str()) {
        Some(i) => {
            proof {
                lemma_entry_models_update(t@, i as int, (key, v));
            }
            t.set(i, (key, v));
        },
        None => {
            proof {
                lemma_entry_models_push(t@, (key, v));
            }
            t.push((key, v));
        },
    }
}

fn set_path_exec(t: &mut Vec<(String, TomlValue)>, path: &str, v: TomlValue)
    ensures
        entry_models(final(t)@) == set_path(entry_models(old(t)@), path@, v@),
    decreases path@.len(),
{
    let cs = chars_of(path);
    proof {
        crate::reconcile::observe::lemma_first_index(cs@, '.', 0);
    }
    let mut i: usize = 0;
    while i < cs.len() && cs[i] != '.'
        invariant
            i <= cs.len(),
            forall|j: int| 0 <= j < i ==> cs@[j] != '.',
        decreases cs.len() - i,
    {
        i += 1;
    }
    if i == cs.len() {
        assert(first_index(path@, '.', 0) is None);
        table_set_exec(t, path.to_owned(), v);
        return;
    }
    assert(first_index(path@, '.', 0) == Some(i as int));
    let head = crate::text::string_from_range(&cs, 0, i);
    let rest = crate::text::string_from_range(&cs, i + 1, cs.len());
    assert(head@ =~= path@.take(i as int));
    assert(rest@ =~= path@.skip(i + 1));
    let ghost tm = entry_models(t@);
    proof {
        lemma_entry_models(t@);
    }
    let mut sub: Vec<(String, TomlValue)> = match key_index_exec(t, head.as_str()) {
        Some(j) => {
            assert(tm[j as int] == (t@[j as int].0@, toml_model(t@[j as int].1)));
            match copy_toml(&t[j].1) {
                TomlValue::Table(es) => es,
                _ => Vec::new(),
            }
        },
        None => Vec::new(),
    };
    proof {
        let e: Seq<(String, TomlValue)> = seq![];
        assert(entry_models(e) =~= Seq::<(Seq<char>, TomlModel)>::empty());
    }
    set_path_exec(&mut sub, rest.as_str(), v);
    table_set_exec(t, head, TomlValue::Table(sub));
}

/// The config's field defaults, each at its dotted path.
pub fn metadata_defaults_table(fields: &[MetadataFieldConfig]) -> (r: Vec<(String, TomlValue)>)
    ensures
        entry_models(r@) == field_defaults_upto(fields@, fields.len() as int),
{
    let mut t: Vec<(String, TomlValue)> = Vec::new();
    let mut k: usize = 0;
    proof {
        let e: Seq<(String, TomlValue)> = seq![];
        assert(entry_models(e) =~= Seq::<(Seq<char>, TomlModel)>::empty());
    }
    while k < fields.len()
        invariant
            k <= fields.len(),
            entry_models(t@) == field_defaults_upto(fields@, k as int),
        decreases fields.len() - k,
    {
        set_path_exec(&mut t, fields[k].path.as_str(), copy_toml(&fields[k].default));
        k += 1;
    }
    t
}

pub(crate) fn push_entry(t: &mut Vec<(String, TomlValue)>, key: &str, v: TomlValue)
    ensures
        entry_models(final(t)@) == entry_models(old(t)@).push((key@, v@)),
{
    let k = key.to_owned();
    proof {
        lemma_entry_models_push(t@, (k, v));
    }
    t.push((k, v));
}

/// The default metadata table (`default_metadata`).
pub fn default_metadata_table(fields: &[MetadataFieldConfig]) -> (r: Vec<(String, TomlValue)>)
    ensures
        entry_models(r@) == default_metadata(fields@),
{
    let mut t: Vec<(String, TomlValue)> = Vec::new();
    proof {
        let e: Seq<(String, TomlValue)> = seq![];
        assert(entry_models(e) =~= Seq::<(Seq<char>, TomlModel)>::empty());
    }
    push_entry(&mut t, "schema-version", TomlValue::Integer(1));
    push_entry(&mut t, "aliases", TomlValue::Array(Vec::new()));
    push_entry(&mut t, "abstract", TomlValue::String(String::new()));
    push_entry(&mut t, "keywords", TomlValue::Array(Vec::new()));
    push_entry(&mut t, "generated", TomlValue::Boolean(true));
    push_entry(&mut t, "checklist-status", TomlValue::String("none".to_owned()));
    push_entry(&mut t, "relation", TomlValue::String("active".to_owned()));
    push_entry(&mut t, "relation-target", TomlValue::Array(Vec::new()));
    proof {
        reveal_strlit("");
        let e: Seq<TomlValue> = seq![];
        assert(toml_models(e) =~= Seq::<TomlModel>::empty());
    }
    assert(entry_models(t@) =~= core_defaults_table());
    let d = metadata_defaults_table(fields);
    let ghost dm = entry_models(d@);
    proof {
        lemma_entry_models(d@);
    }
    let mut k: usize = 0;
    while k < d.len()
        invariant
            k <= d.len(),
            dm == entry_models(d@),
            dm.len() == d.len(),
            dm == field_defaults_upto(fields@, fields.len() as int),
            forall|i: int| 0 <= i < d.len() ==> #[trigger] dm[i] == (d@[i].0@, toml_model(d@[i].1)),
            entry_models(t@) == set_all(core_defaults_table(), dm, k as int),
        decreases d.len() - k,
    {
        table_set_exec(&mut t, d[k].0.clone(), copy_toml(&d[k].1));
        k += 1;
    }
    t
}

// ---------------------------------------------------------------------------
// JSON documents
// ---------------------------------------------------------------------------

/// A TOML value as JSON: a date-time becomes its text.
pub open spec fn toml_to_json(v: TomlModel) -> JsonModel
    decreases v,
{
    match v {
        TomlModel::String(s) => JsonModel::Str(s),
        TomlModel::Integer(n) => JsonModel::Int(n),
        TomlModel::Float(t) => JsonModel::Float(t),
        TomlModel::Boolean(b) => JsonModel::Bool(b),
        TomlModel::Datetime(t) => JsonModel::Str(t),
        TomlModel::Array(items) => JsonModel::Array(toml_seq_to_json(items)),
        TomlModel::Table(es) => JsonModel::Object(toml_entries_to_json(es)),
    }
}

pub open spec fn toml_seq_to_json(s: Seq<TomlModel>) -> Seq<JsonModel>
    decreases s,
{
    if s.len() == 0 {
        seq![]
    } else {
        toml_seq_to_json(s.subrange(0, s.len() - 1)).push(toml_to_json(s[s.len() - 1]))
    }
}

pub open spec fn toml_entries_to_json(s: Seq<(Seq<char>, TomlModel)>) -> Seq<(Seq<char>, JsonModel)>
    decreases s,
{
    if s.len() == 0 {
        seq![]
    } else {
        toml_entries_to_json(s.subrange(0, s.len() - 1)).push((s[s.len() - 1].0, toml_to_json(s[s.len() - 1].1)))
    }
}

proof fn lemma_json_members_push(t: Seq<(String, JsonValue)>, e: (String, JsonValue))
    ensures
        member_models(t.push(e)) == member_models(t).push((e.0@, e.1@)),
{
    assert(t.push(e).subrange(0, t.len() as int) =~= t);
}

proof fn lemma_json_items_push(t: Seq<JsonValue>, e: JsonValue)
    ensures
        json_models(t.push(e)) == json_models(t).push(e@),
{
    assert(t.push(e).subrange(0, t.len() as int) =~= t);
}

/// A TOML value as JSON (`toml_to_json`).
pub fn toml_value_to_json(v: &TomlValue) -> (r: JsonValue)
    ensures
        r@ == toml_to_json(v@),
    decreases v,
{
    match v {
        TomlValue::String(s) => JsonValue::Str(s.clone()),
        TomlValue::Integer(n) => JsonValue::Int(*n),
        TomlValue::Float(t) => JsonValue::Float(t.clone()),
        TomlValue::Boolean(b) => JsonValue::Bool(*b),
        TomlValue::Datetime(t) => JsonValue::Str(t.clone()),
        TomlValue::Array(items) => {
            proof {
                lemma_toml_models(items@);
            }
            let ghost im = toml_models(items@);
            let mut out: Vec<JsonValue> = Vec::new();
            let mut k: usize = 0;
            proof {
                let e: Seq<JsonValue> = seq![];
                assert(json_models(e) =~= Seq::<JsonModel>::empty());
                assert(im.subrange(0, 0) =~= Seq::<TomlModel>::empty());
            }
            while k < items.len()
                invariant
                    k <= items.len(),
                    im == toml_models(items@),
                    im.len() == items.len(),
                    forall|i: int| 0 <= i < items.len() ==> #[trigger] im[i] == toml_model(items@[i]),
                    json_models(out@) == toml_seq_to_json(im.subrange(0, k as int)),
                    *v == TomlValue::Array(*items),
                decreases items.len() - k,
            {
                proof {
                    assert(decreases_to!(*v => (*v)->Array_0));
                    assert(decreases_to!((*v)->Array_0 => (*v)->Array_0@));
                    assert(decreases_to!(items@ => items@[k as int]));
                    assert(decreases_to!(*v => items@[k as int]));
                }
                let j = toml_value_to_json(&items[k]);
                proof {
                    lemma_json_items_push(out@, j);
                    assert(im.subrange(0, k + 1).subrange(0, k as int) =~= im.subrange(0, k as int));
                }
                out.push(j);
                k += 1;
            }
            assert(im.subrange(0, items.len() as int) =~= im);
            JsonValue::Array(out)
        },
        TomlValue::Table(es) => {
            proof {
                lemma_entry_models(es@);
            }
            let ghost em = entry_models(es@);
            let mut out: Vec<(String, JsonValue)> = Vec::new();
            let mut k: usize = 0;
            proof {
                let e: Seq<(String, JsonValue)> = seq![];
                assert(member_models(e) =~= Seq::<(Seq<char>, JsonModel)>::empty());
                assert(em.subrange(0, 0) =~= Seq::<(Seq<char>, TomlModel)>::empty());
            }
            while k < es.len()
                invariant
                    k <= es.len(),
                    em == entry_models(es@),
                    em.len() == es.len(),
                    forall|i: int| 0 <= i < es.len() ==> #[trigger] em[i] == (es@[i].0@, toml_model(es@[i].1)),
                    member_models(out@) == toml_entries_to_json(em.subrange(0, k as int)),
                    *v == TomlValue::Table(*es),
                decreases es.len() - k,
            {
                proof {
                    assert(decreases_to!(*v => (*v)->Table_0));
                    assert(decreases_to!((*v)->Table_0 => (*v)->Table_0@));
                    assert(decreases_to!(es@ => es@[k as int]));
                    assert(decreases_to!(es@[k as int] => es@[k as int].1));
                    assert(decreases_to!(*v => es@[k as int].1));
                }
                let j = toml_value_to_json(&es[k].1);
                let e = (es[k].0.clone(), j);
                proof {
                    lemma_json_members_push(out@, e);
                    assert(em.subrange(0, k + 1).subrange(0, k as int) =~= em.subrange(0, k as int));
                }
                out.push(e);
                k += 1;
            }
            assert(em.subrange(0, es.len() as int) =~= em);
            JsonValue::Object(out)
        },
    }
}

pub open spec fn jstr(s: Seq<char>) -> JsonModel {
    JsonModel::Str(s)
}

pub open spec fn str_array(v: Seq<Seq<char>>) -> Seq<JsonModel> {
    v.map_values(|s: Seq<char>| JsonModel::Str(s))
}

/// A field spec as a JSON object.
pub open spec fn field_spec_json_doc(f: FieldSpecModel) -> JsonModel {
    let base = seq![
        ("path"@, jstr(f.path)),
        ("kind"@, jstr(f.kind)),
        ("default"@, toml_to_json(f.default)),
        ("required"@, JsonModel::Bool(f.required)),
        ("core"@, JsonModel::Bool(f.core)),
    ];
    JsonModel::Object(
        match f.enum_values {
            Some(vs) => base.push(("enum"@, JsonModel::Array(str_array(vs)))),
            None => base,
        },
    )
}

pub open spec fn source_json(s: ConfigSource) -> JsonModel {
    JsonModel::Object(seq![("scope"@, jstr(s.scope@)), ("path"@, jstr(s.path@)), ("loaded"@, JsonModel::Bool(s.loaded))])
}

pub open spec fn sources_json_doc(sources: Seq<ConfigSource>) -> JsonModel {
    JsonModel::Array(sources.map_values(|s: ConfigSource| source_json(s)))
}

/// The head of a JSON document of `kind`, with the sources when asked.
pub open spec fn json_head(kind: Seq<char>, sources: Seq<ConfigSource>, include_sources: bool) -> Seq<(Seq<char>, JsonModel)> {
    let h = seq![("kind"@, jstr(kind)), ("formatVersion"@, JsonModel::Int(1))];
    if include_sources {
        h.push(("sources"@, sources_json_doc(sources)))
    } else {
        h
    }
}

pub open spec fn fields_json_doc(fields: Seq<MetadataFieldConfig>, sources: Seq<ConfigSource>, include_sources: bool) -> JsonModel {
    JsonModel::Object(
        json_head("zk-lsp.config.metadata.fields"@, sources, include_sources).push(
            ("fields"@, JsonModel::Array(all_field_models(fields).map_values(|f: FieldSpecModel| field_spec_json_doc(f)))),
        ),
    )
}

pub open spec fn defaults_json_doc(fields: Seq<MetadataFieldConfig>, sources: Seq<ConfigSource>, include_sources: bool) -> JsonModel {
    JsonModel::Object(
        json_head("zk-lsp.config.metadata.defaults"@, sources, include_sources).push(
            ("metadata"@, toml_to_json(TomlModel::Table(default_metadata(fields)))),
        ),
    )
}

pub(crate) fn jstr_exec(s: &str) -> (r: JsonValue)
    ensures
        r@ == jstr(s@),
{
    JsonValue::Str(s.to_owned())
}

pub(crate) fn push_member(obj: &mut Vec<(String, JsonValue)>, key: &str, v: JsonValue)
    ensures
        member_models(final(obj)@) == member_models(old(obj)@).push((key@, v@)),
{
    let k = key.to_owned();
    proof {
        lemma_json_members_push(obj@, (k, v));
    }
    obj.push((k, v));
}

pub(crate) fn empty_members() -> (r: Vec<(String, JsonValue)>)
    ensures
        member_models(r@) == Seq::<(Seq<char>, JsonModel)>::empty(),
{
    let r: Vec<(String, JsonValue)> = Vec::new();
    assert(member_models(r@) =~= Seq::<(Seq<char>, JsonModel)>::empty());
    r
}

pub(crate) fn str_array_exec(v: &Vec<String>) -> (r: Vec<JsonValue>)
    ensures
        json_models(r@) == str_array(names_of(v@)),
{
    let mut out: Vec<JsonValue> = Vec::new();
    let mut k: usize = 0;
    assert(json_models(out@) =~= str_array(names_of(v@)).take(0));
    while k < v.len()
        invariant
            k <= v.len(),
            json_models(out@) == str_array(names_of(v@)).take(k as int),
        decreases v.len() - k,
    {
        let j = JsonValue::Str(v[k].clone());
        proof {
            lemma_json_items_push(out@, j);
        }
        out.push(j);
        assert(str_array(names_of(v@)).take(k + 1) =~= str_array(names_of(v@)).take(k as int).push(JsonModel::Str(v@[k as int]@)));
        k += 1;
    }
    assert(str_array(names_of(v@)).take(v.len() as int) =~= str_array(names_of(v@)));
    out
}

fn field_spec_json(f: &FieldSpec) -> (r: JsonValue)
    ensures
        r@ == field_spec_json_doc(f@),
{
    let mut o = empty_members();
    push_member(&mut o, "path", jstr_exec(f.path.as_str()));
    push_member(&mut o, "kind", jstr_exec(f.kind.as_str()));
    push_member(&mut o, "default", toml_value_to_json(&f.default));
    push_member(&mut o, "required", JsonValue::Bool(f.required));
    push_member(&mut o, "core", JsonValue::Bool(f.core));
    let ghost base = seq![
        ("path"@, jstr(f.path@)),
        ("kind"@, jstr(f.kind@)),
        ("default"@, toml_to_json(f.default@)),
        ("required"@, JsonModel::Bool(f.required)),
        ("core"@, JsonModel::Bool(f.core)),
    ];
    assert(member_models(o@) =~= base);
    match &f.enum_values {
        Some(vs) => {
            push_member(&mut o, "enum", JsonValue::Array(str_array_exec(vs)));
        },
        None => {},
    }
    JsonValue::Object(o)
}

fn sources_json(sources: &[ConfigSource]) -> (r: JsonValue)
    ensures
        r@ == sources_json_doc(sources@),
{
    let mut out: Vec<JsonValue> = Vec::new();
    let mut k: usize = 0;
    assert(json_models(out@) =~= sources@.map_values(|s: ConfigSource| source_json(s)).take(0));
    while k < sources.len()
        invariant
            k <= sources.len(),
            json_models(out@) == sources@.map_values(|s: ConfigSource| source_json(s)).take(k as int),
        decreases sources.len() - k,
    {
        let s = &sources[k];
        let mut o = empty_members();
        push_member(&mut o, "scope", jstr_exec(s.scope.as_str()));
        push_member(&mut o, "path", jstr_exec(s.path.as_str()));
        push_member(&mut o, "loaded", JsonValue::Bool(s.loaded));
        assert(member_models(o@) =~= seq![("scope"@, jstr(s.scope@)), ("path"@, jstr(s.path@)), ("loaded"@, JsonModel::Bool(s.loaded))]);
        let j = JsonValue::Object(o);
        proof {
            lemma_json_items_push(out@, j);
        }
        out.push(j);
        assert(sources@.map_values(|s: ConfigSource| source_json(s)).take(k + 1) =~= sources@.map_values(
            |s: ConfigSource| source_json(s),
        ).take(k as int).push(source_json(sources@[k as int])));
        k += 1;
    }
    assert(sources@.map_values(|s: ConfigSource| source_json(s)).take(sources.len() as int) =~= sources@.map_values(
        |s: ConfigSource| source_json(s),
    ));
    JsonValue::Array(out)
}

fn json_head_exec(kind: &str, sources: &[ConfigSource], include_sources: bool) -> (r: Vec<(String, JsonValue)>)
    ensures
        member_models(r@) == json_head(kind@, sources@, include_sources),
{
    let mut o = empty_members();
    push_member(&mut o, "kind", jstr_exec(kind));
    push_member(&mut o, "formatVersion", JsonValue::Int(1));
    if include_sources {
        push_member(&mut o, "sources", sources_json(sources));
    }
    o
}

pub fn fields_json(fields: &[MetadataFieldConfig], sources: &[ConfigSource], include_sources: bool) -> (r: JsonValue)
    ensures
        r@ == fields_json_doc(fields@, sources@, include_sources),
{
    let mut o = json_head_exec("zk-lsp.config.metadata.fields", sources, include_sources);
    let specs = all_field_specs(fields);
    let ghost sm = spec_models(specs@);
    let mut items: Vec<JsonValue> = Vec::new();
    let mut k: usize = 0;
    assert(json_models(items@) =~= sm.map_values(|f: FieldSpecModel| field_spec_json_doc(f)).take(0));
    while k < specs.len()
        invariant
            k <= specs.len(),
            sm == spec_models(specs@),
            json_models(items@) == sm.map_values(|f: FieldSpecModel| field_spec_json_doc(f)).take(k as int),
        decreases specs.len() - k,
    {
        let j = field_spec_json(&specs[k]);
        proof {
            lemma_json_items_push(items@, j);
        }
        items.push(j);
        assert(sm.map_values(|f: FieldSpecModel| field_spec_json_doc(f)).take(k + 1) =~= sm.map_values(
            |f: FieldSpecModel| field_spec_json_doc(f),
        ).take(k as int).push(field_spec_json_doc(sm[k as int])));
        k += 1;
    }
    assert(sm.map_values(|f: FieldSpecModel| field_spec_json_doc(f)).take(specs.len() as int) =~= sm.map_values(
        |f: FieldSpecModel| field_spec_json_doc(f),
    ));
    push_member(&mut o, "fields", JsonValue::Array(items));
    JsonValue::Object(o)
}

pub fn defaults_json(fields: &[MetadataFieldConfig], sources: &[ConfigSource], include_sources: bool) -> (r: JsonValue)
    ensures
        r@ == defaults_json_doc(fields@, sources@, include_sources),
{
    let mut o = json_head_exec("zk-lsp.config.metadata.defaults", sources, include_sources);
    let t = default_metadata_table(fields);
    push_member(&mut o, "metadata", toml_value_to_json(&TomlValue::Table(t)));
    JsonValue::Object(o)
}

// ---------------------------------------------------------------------------
// TOML documents
// ---------------------------------------------------------------------------

pub open spec fn tstr(s: Seq<char>) -> TomlModel {
    TomlModel::String(s)
}

pub open spec fn field_spec_toml_doc(f: FieldSpecModel) -> TomlModel {
    let base = seq![
        ("path"@, tstr(f.path)),
        ("kind"@, tstr(f.kind)),
        ("default"@, f.default),
        ("required"@, TomlModel::Boolean(f.required)),
        ("core"@, TomlModel::Boolean(f.core)),
    ];
    TomlModel::Table(
        match f.enum_values {
            Some(vs) => base.push(("enum"@, TomlModel::Array(vs.map_values(|s: Seq<char>| tstr(s))))),
            None => base,
        },
    )
}

pub open spec fn source_toml(s: ConfigSource) -> TomlModel {
    TomlModel::Table(seq![("scope"@, tstr(s.scope@)), ("path"@, tstr(s.path@)), ("loaded"@, TomlModel::Boolean(s.loaded))])
}

pub open spec fn toml_head(kind: Seq<char>, sources: Seq<ConfigSource>, include_sources: bool) -> Seq<(Seq<char>, TomlModel)> {
    let h = seq![("kind"@, tstr(kind)), ("format-version"@, TomlModel::Integer(1))];
    if include_sources {
        h.push(("sources"@, TomlModel::Array(sources.map_values(|s: ConfigSource| source_toml(s)))))
    } else {
        h
    }
}

pub open spec fn fields_toml_doc(fields: Seq<MetadataFieldConfig>, sources: Seq<ConfigSource>, include_sources: bool) -> Seq<
    (Seq<char>, TomlModel),
> {
    toml_head("zk-lsp.config.metadata.fields"@, sources, include_sources).push(
        ("fields"@, TomlModel::Array(all_field_models(fields).map_values(|f: FieldSpecModel| field_spec_toml_doc(f)))),
    )
}

pub open spec fn defaults_toml_doc(fields: Seq<MetadataFieldConfig>, sources: Seq<ConfigSource>, include_sources: bool) -> Seq<
    (Seq<char>, TomlModel),
> {
    toml_head("zk-lsp.config.metadata.defaults"@, sources, include_sources).push(
        ("metadata"@, TomlModel::Table(default_metadata(fields))),
    )
}

proof fn lemma_toml_items_push(t: Seq<TomlValue>, e: TomlValue)
    ensures
        toml_models(t.push(e)) == toml_models(t).push(e@),
{
    assert(t.push(e).subrange(0, t.len() as int) =~= t);
}

fn tstr_exec(s: &str) -> (r: TomlValue)
    ensures
        r@ == tstr(s@),
{
    TomlValue::String(s.to_owned())
}

pub(crate) fn empty_entries() -> (r: Vec<(String, TomlValue)>)
    ensures
        entry_models(r@) == Seq::<(Seq<char>, TomlModel)>::empty(),
{
    let r: Vec<(String, TomlValue)> = Vec::new();
    assert(entry_models(r@) =~= Seq::<(Seq<char>, TomlModel)>::empty());
    r
}

fn field_spec_toml(f: &FieldSpec) -> (r: TomlValue)
    ensures
        r@ == field_spec_toml_doc(f@),
{
    let mut t = empty_entries();
    push_entry(&mut t, "path", tstr_exec(f.path.as_str()));
    push_entry(&mut t, "kind", tstr_exec(f.kind.as_str()));
    push_entry(&mut t, "default", copy_toml(&f.default));
    push_entry(&mut t, "required", TomlValue::Boolean(f.required));
    push_entry(&mut t, "core", TomlValue::Boolean(f.core));
    let ghost base = seq![
        ("path"@, tstr(f.path@)),
        ("kind"@, tstr(f.kind@)),
        ("default"@, f.default@),
        ("required"@, TomlModel::Boolean(f.required)),
        ("core"@, TomlModel::Boolean(f.core)),
    ];
    assert(entry_models(t@) =~= base);
    match &f.enum_values {
        Some(vs) => {
            let mut items: Vec<TomlValue> = Vec::new();
            let ghost want = names_of(vs@).map_values(|s: Seq<char>| tstr(s));
            let mut k: usize = 0;
            assert(toml_models(items@) =~= want.take(0));
            while k < vs.len()
                invariant
                    k <= vs.len(),
                    want == names_of(vs@).map_values(|s: Seq<char>| tstr(s)),
                    toml_models(items@) == want.take(k as int),
                decreases vs.len() - k,
            {
                let x = TomlValue::String(vs[k].clone());
                proof {
                    lemma_toml_items_push(items@, x);
                }
                items.push(x);
                assert(want.take(k + 1) =~= want.take(k as int).push(tstr(vs@[k as int]@)));
                k += 1;
            }
            assert(want.take(vs.len() as int) =~= want);
            push_entry(&mut t, "enum", TomlValue::Array(items));
        },
        None => {},
    }
    TomlValue::Table(t)
}

fn toml_head_exec(kind: &str, sources: &[ConfigSource], include_sources: bool) -> (r: Vec<(String, TomlValue)>)
    ensures
        entry_models(r@) == toml_head(kind@, sources@, include_sources),
{
    let mut t = empty_entries();
    push_entry(&mut t, "kind", tstr_exec(kind));
    push_entry(&mut t, "format-version", TomlValue::Integer(1));
    if include_sources {
        let ghost want = sources@.map_values(|s: ConfigSource| source_toml(s));
        let mut items: Vec<TomlValue> = Vec::new();
        let mut k: usize = 0;
        assert(toml_models(items@) =~= want.take(0));
        while k < sources.len()
            invariant
                k <= sources.len(),
                want == sources@.map_values(|s: ConfigSource| source_toml(s)),
                toml_models(items@) == want.take(k as int),
            decreases sources.len() - k,
        {
            let s = &sources[k];
            let mut e = empty_entries();
            push_entry(&mut e, "scope", tstr_exec(s.scope.as_str()));
            push_entry(&mut e, "path", tstr_exec(s.path.as_str()));
            push_entry(&mut e, "loaded", TomlValue::Boolean(s.loaded));
            assert(entry_models(e@) =~= seq![("scope"@, tstr(s.scope@)), ("path"@, tstr(s.path@)), ("loaded"@, TomlModel::Boolean(s.loaded))]);
            let x = TomlValue::Table(e);
            proof {
                lemma_toml_items_push(items@, x);
            }
            items.push(x);
            assert(want.take(k + 1) =~= want.take(k as int).push(source_toml(sources@[k as int])));
            k += 1;
        }
        assert(want.take(sources.len() as int) =~= want);
        push_entry(&mut t, "sources", TomlValue::Array(items));
    }
    t
}

fn fields_toml(fields: &[MetadataFieldConfig], sources: &[ConfigSource], include_sources: bool) -> (r: Vec<(String, TomlValue)>)
    ensures
        entry_models(r@) == fields_toml_doc(fields@, sources@, include_sources),
{
    let mut t = toml_head_exec("zk-lsp.config.metadata.fields", sources, include_sources);
    let specs = all_field_specs(fields);
    let ghost sm = spec_models(specs@);
    let ghost want = sm.map_values(|f: FieldSpecModel| field_spec_toml_doc(f));
    let mut items: Vec<TomlValue> = Vec::new();
    let mut k: usize = 0;
    assert(toml_models(items@) =~= want.take(0));
    while k < specs.len()
        invariant
            k <= specs.len(),
            sm == spec_models(specs@),
            want == sm.map_values(|f: FieldSpecModel| field_spec_toml_doc(f)),
            toml_models(items@) == want.take(k as int),
        decreases specs.len() - k,
    {
        let x = field_spec_toml(&specs[k]);
        proof {
            lemma_toml_items_push(items@, x);
        }
        items.push(x);
        assert(want.take(k + 1) =~= want.take(k as int).push(field_spec_toml_doc(sm[k as int])));
        k += 1;
    }
    assert(want.take(specs.len() as int) =~= want);
    push_entry(&mut t, "fields", TomlValue::Array(items));
    t
}

fn defaults_toml_envelope(fields: &[MetadataFieldConfig], sources: &[ConfigSource], include_sources: bool) -> (r: Vec<(String, TomlValue)>)
    ensures
        entry_models(r@) == defaults_toml_doc(fields@, sources@, include_sources),
{
    let mut t = toml_head_exec("zk-lsp.config.metadata.defaults", sources, include_sources);
    push_entry(&mut t, "metadata", TomlValue::Table(default_metadata_table(fields)));
    t
}

// ---------------------------------------------------------------------------
// JSON Schema
// ---------------------------------------------------------------------------

/// The JSON Schema of one field.
pub open spec fn field_schema_doc(f: FieldSpecModel) -> JsonModel {
    let ty = if f.kind == "integer"@ {
        seq![("type"@, jstr("integer"@))]
    } else if f.kind == "boolean"@ {
        seq![("type"@, jstr("boolean"@))]
    } else if f.kind == "array-string"@ {
        seq![("type"@, jstr("array"@)), ("items"@, JsonModel::Object(seq![("type"@, jstr("string"@))]))]
    } else {
        seq![("type"@, jstr("string"@))]
    };
    let with_enum = match f.enum_values {
        Some(vs) => ty.push(("enum"@, JsonModel::Array(str_array(vs)))),
        None => ty,
    };
    JsonModel::Object(with_enum.push(("default"@, toml_to_json(f.default))))
}

/// The schema's required paths, properties and `user.*` properties after
/// the fields `fs[..n]`.
pub open spec fn schema_parts(fs: Seq<FieldSpecModel>, n: int) -> (Seq<JsonModel>, Seq<(Seq<char>, JsonModel)>, Seq<
    (Seq<char>, JsonModel),
>)
    decreases n,
{
    if n <= 0 {
        (seq![], seq![], seq![])
    } else {
        let (req, props, user) = schema_parts(fs, n - 1);
        let f = fs[n - 1];
        let is_user = starts_with(f.path, "user."@);
        let req2 = if f.required && f.core && !is_user {
            req.push(jstr(f.path))
        } else {
            req
        };
        if is_user {
            (req2, props, user.push((f.path.skip(5), field_schema_doc(f))))
        } else {
            (req2, props.push((f.path, field_schema_doc(f))), user)
        }
    }
}

/// The JSON Schema of the metadata: core fields required, `user.*` fields
/// nested under a `user` object.
pub open spec fn json_schema_doc(fields: Seq<MetadataFieldConfig>, sources: Seq<ConfigSource>, include_sources: bool) -> JsonModel {
    let fs = all_field_models(fields);
    let (req, props, user) = schema_parts(fs, fs.len() as int);
    let props2 = if user.len() > 0 {
        props.push(
            (
                "user"@,
                JsonModel::Object(
                    seq![
                        ("type"@, jstr("object"@)),
                        ("properties"@, JsonModel::Object(user)),
                        ("additionalProperties"@, JsonModel::Bool(true)),
                    ],
                ),
            ),
        )
    } else {
        props
    };
    let ext = seq![("kind"@, jstr("zk-lsp.config.metadata.json-schema"@)), ("formatVersion"@, JsonModel::Int(1))];
    let ext2 = if include_sources {
        ext.push(("sources"@, sources_json_doc(sources)))
    } else {
        ext
    };
    JsonModel::Object(
        seq![
            ("$schema"@, jstr("https://json-schema.org/draft/2020-12/schema"@)),
            ("title"@, jstr("zk-lsp metadata"@)),
            ("type"@, jstr("object"@)),
            ("required"@, JsonModel::Array(req)),
            ("properties"@, JsonModel::Object(props2)),
            ("additionalProperties"@, JsonModel::Bool(true)),
            ("x-zk-lsp"@, JsonModel::Object(ext2)),
        ],
    )
}

fn json_schema_for_field(f: &FieldSpec) -> (r: JsonValue)
    ensures
        r@ == field_schema_doc(f@),
{
    let mut o = empty_members();
    let ghost ty = if f@.kind == "integer"@ {
        seq![("type"@, jstr("integer"@))]
    } else if f@.kind == "boolean"@ {
        seq![("type"@, jstr("boolean"@))]
    } else if f@.kind == "array-string"@ {
        seq![("type"@, jstr("array"@)), ("items"@, JsonModel::Object(seq![("type"@, jstr("string"@))]))]
    } else {
        seq![("type"@, jstr("string"@))]
    };
    if crate::text::str_eq(f.kind.as_str(), "integer") {
        push_member(&mut o, "type", jstr_exec("integer"));
    } else if crate::text::str_eq(f.kind.as_str(), "boolean") {
        push_member(&mut o, "type", jstr_exec("boolean"));
    } else if crate::text::str_eq(f.kind.as_str(), "array-string") {
        push_member(&mut o, "type", jstr_exec("array"));
        let mut item = empty_members();
        push_member(&mut item, "type", jstr_exec("string"));
        assert(member_models(item@) =~= seq![("type"@, jstr("string"@))]);
        push_member(&mut o, "items", JsonValue::Object(item));
    } else {
        push_member(&mut o, "type", jstr_exec("string"));
    }
    assert(member_models(o@) =~= ty);
    match &f.enum_values {
        Some(vs) => {
            push_member(&mut o, "enum", JsonValue::Array(str_array_exec(vs)));
        },
        None => {},
    }
    push_member(&mut o, "default", toml_value_to_json(&f.default));
    JsonValue::Object(o)
}

pub fn json_schema_value(fields: &[MetadataFieldConfig], sources: &[ConfigSource], include_sources: bool) -> (r: JsonValue)
    ensures
        r@ == json_schema_doc(fields@, sources@, include_sources),
{
    let specs = all_field_specs(fields);
    let ghost fs = spec_models(specs@);
    let mut req: Vec<JsonValue> = Vec::new();
    let mut props = empty_members();
    let mut user = empty_members();
    let mut k: usize = 0;
    assert(json_models(req@) =~= schema_parts(fs, 0).0);
    while k < specs.len()
        invariant
            k <= specs.len(),
            fs == spec_models(specs@),
            fs.len() == specs.len(),
            json_models(req@) == schema_parts(fs, k as int).0,
            member_models(props@) == schema_parts(fs, k as int).1,
            member_models(user@) == schema_parts(fs, k as int).2,
        decreases specs.len() - k,
    {
        let f = &specs[k];
        assert(fs[k as int] == f@);
        let pc = chars_of(f.path.as_str());
        let is_user = crate::parser::starts_with_at(&pc, 0, &['u', 's', 'e', 'r', '.']);
        proof {
            reveal_strlit("user.");
            assert(pc@.skip(0) =~= pc@);
            assert(seq!['u', 's', 'e', 'r', '.'] =~= "user."@);
        }
        if f.required && f.core && !is_user {
            let j = jstr_exec(f.path.as_str());
            proof {
                lemma_json_items_push(req@, j);
            }
            req.push(j);
        }
        if is_user {
            let key = crate::text::string_from_range(&pc, 5, pc.len());
            assert(key@ =~= f.path@.skip(5));
            let e = (key, json_schema_for_field(f));
            proof {
                lemma_json_members_push(user@, e);
            }
            user.push(e);
        } else {
            push_member(&mut props, f.path.as_str(), json_schema_for_field(f));
        }
        k += 1;
    }
    assert(fs.len() == specs.len());
    assert(fs.len() as int == specs.len() as int);
    let ghost parts = schema_parts(fs, fs.len() as int);
    assert(member_models(user@) == parts.2);
    if user.len() > 0 {
        let ghost um = member_models(user@);
        let mut u = empty_members();
        push_member(&mut u, "type", jstr_exec("object"));
        push_member(&mut u, "properties", JsonValue::Object(user));
        push_member(&mut u, "additionalProperties", JsonValue::Bool(true));
        assert(member_models(u@) =~= seq![
            ("type"@, jstr("object"@)),
            ("properties"@, JsonModel::Object(um)),
            ("additionalProperties"@, JsonModel::Bool(true)),
        ]);
        push_member(&mut props, "user", JsonValue::Object(u));
    } else {
        proof {
            crate::json_value::lemma_member_models(user@);
        }
    }
    let mut ext = empty_members();
    push_member(&mut ext, "kind", jstr_exec("zk-lsp.config.metadata.json-schema"));
    push_member(&mut ext, "formatVersion", JsonValue::Int(1));
    assert(member_models(ext@) =~= seq![("kind"@, jstr("zk-lsp.config.metadata.json-schema"@)), ("formatVersion"@, JsonModel::Int(1))]);
    if include_sources {
        push_member(&mut ext, "sources", sources_json(sources));
    }
    let mut o = empty_members();
    push_member(&mut o, "$schema", jstr_exec("https://json-schema.org/draft/2020-12/schema"));
    push_member(&mut o, "title", jstr_exec("zk-lsp metadata"));
    push_member(&mut o, "type", jstr_exec("object"));
    push_member(&mut o, "required", JsonValue::Array(req));
    push_member(&mut o, "properties", JsonValue::Object(props));
    push_member(&mut o, "additionalProperties", JsonValue::Bool(true));
    push_member(&mut o, "x-zk-lsp", JsonValue::Object(ext));
    assert(member_models(o@) =~= json_schema_doc(fields@, sources@, include_sources)->Object_0);
    JsonValue::Object(o)
}

// ---------------------------------------------------------------------------
// Rendering
// ---------------------------------------------------------------------------

pub open spec fn opt_text(r: Option<String>) -> Option<Seq<char>> {
    match r {
        Some(s) => Some(s@),
        None => None,
    }
}

/// Pretty JSON with a final newline.
pub open spec fn rendered_json(v: JsonModel) -> Option<Seq<char>> {
    match json_pretty(v) {
        Some(s) => Some(s + seq!['\n']),
        None => None,
    }
}

/// A pretty TOML document, with a final newline where it lacks one.
pub open spec fn rendered_toml(t: Seq<(Seq<char>, TomlModel)>) -> Option<Seq<char>> {
    match toml_pretty(t) {
        Some(s) => if s.len() > 0 && s.last() == '\n' {
            Some(s)
        } else {
            Some(s + seq!['\n'])
        },
        None => None,
    }
}

fn render_json(v: &JsonValue) -> (r: Option<String>)
    ensures
        match r {
            Some(s) => rendered_json(v@) == Some(s@),
            None => rendered_json(v@) is None,
        },
{
    match json_to_string_pretty(v) {
        Some(s) => {
            let mut cs = chars_of(s.as_str());
            cs.push('\n');
            Some(string_from_chars(&cs))
        },
        None => None,
    }
}

fn render_toml(t: &Vec<(String, TomlValue)>) -> (r: Option<String>)
    ensures
        match r {
            Some(s) => rendered_toml(entry_models(t@)) == Some(s@),
            None => rendered_toml(entry_models(t@)) is None,
        },
{
    match toml_to_string_pretty(t) {
        Some(s) => {
            let mut cs = chars_of(s.as_str());
            if !crate::text::ends_with_nl(&cs) {
                cs.push('\n');
            }
            Some(string_from_chars(&cs))
        },
        None => None,
    }
}

/// The document listing the metadata fields (core, then the config's),
/// with the config sources when asked; none where the writer fails.
pub fn render_fields(
    fields: &[MetadataFieldConfig],
    sources: &[ConfigSource],
    format: MetadataSchemaFormat,
    include_sources: bool,
) -> (r: Option<String>)
    ensures
        opt_text(r) == match format {
            MetadataSchemaFormat::Json => rendered_json(fields_json_doc(fields@, sources@, include_sources)),
            MetadataSchemaFormat::Toml => rendered_toml(fields_toml_doc(fields@, sources@, include_sources)),
        },
{
    match format {
        MetadataSchemaFormat::Json => render_json(&fields_json(fields, sources, include_sources)),
        MetadataSchemaFormat::Toml => render_toml(&fields_toml(fields, sources, include_sources)),
    }
}

/// The document of the metadata defaults: in JSON an envelope, in TOML the
/// bare default table unless the sources are asked for.
pub fn render_defaults(
    fields: &[MetadataFieldConfig],
    sources: &[ConfigSource],
    format: MetadataSchemaFormat,
    include_sources: bool,
) -> (r: Option<String>)
    ensures
        opt_text(r) == match format {
            MetadataSchemaFormat::Json => rendered_json(defaults_json_doc(fields@, sources@, include_sources)),
            MetadataSchemaFormat::Toml => if include_sources {
                rendered_toml(defaults_toml_doc(fields@, sources@, include_sources))
            } else {
                rendered_toml(default_metadata(fields@))
            },
        },
{
    match format {
        MetadataSchemaFormat::Json => render_json(&defaults_json(fields, sources, include_sources)),
        MetadataSchemaFormat::Toml => if include_sources {
            render_toml(&defaults_toml_envelope(fields, sources, include_sources))
        } else {
            render_toml(&default_metadata_table(fields))
        },
    }
}

/// The JSON Schema of the metadata (`json_schema_doc`).
pub fn render_json_schema(fields: &[MetadataFieldConfig], sources: &[ConfigSource], include_sources: bool) -> (r: Option<String>)
    ensures
        opt_text(r) == rendered_json(json_schema_doc(fields@, sources@, include_sources)),
{
    render_json(&json_schema_value(fields, sources, include_sources))
}

/// The format that the `--toml` flag asks for.
pub fn metadata_output_format(toml: bool) -> (r: MetadataSchemaFormat)
    ensures
        r == (if toml {
            MetadataSchemaFormat::Toml
        } else {
            MetadataSchemaFormat::Json
        }),
{
    if toml {
        MetadataSchemaFormat::Toml
    } else {
        MetadataSchemaFormat::Json
    }
}

/// A `config metadata` command: which document, in TOML or JSON, and
/// whether the config sources are listed.
#[derive(Debug, Clone, Copy, PartialEq, Eq, Structural)]
pub enum ConfigCommand {
    Fields { toml: bool, sources: bool },
    Defaults { toml: bool, sources: bool },
    JsonSchema { sources: bool },
}

/// What a `config metadata` command prints.
pub open spec fn config_command_text(
    fields: Seq<MetadataFieldConfig>,
    sources: Seq<ConfigSource>,
    command: ConfigCommand,
) -> Option<Seq<char>> {
    match command {
        ConfigCommand::Fields { toml, sources: inc } => if toml {
            rendered_toml(fields_toml_doc(fields, sources, inc))
        } else {
            rendered_json(fields_json_doc(fields, sources, inc))
        },
        ConfigCommand::Defaults { toml, sources: inc } => if toml {
            if inc {
                rendered_toml(defaults_toml_doc(fields, sources, inc))
            } else {
                rendered_toml(default_metadata(fields))
            }
        } else {
            rendered_json(defaults_json_doc(fields, sources, inc))
        },
        ConfigCommand::JsonSchema { sources: inc } => rendered_json(json_schema_doc(fields, sources, inc)),
    }
}

/// Renders what a `config metadata` command prints (`config_command_text`).
pub fn render_config_command(fields: &[MetadataFieldConfig], sources: &[ConfigSource], command: ConfigCommand) -> (r: Option<
    String,
>)
    ensures
        opt_text(r) == config_command_text(fields@, sources@, command),
{
    match command {
        ConfigCommand::Fields { toml, sources: inc } => render_fields(fields, sources, metadata_output_format(toml), inc),
        ConfigCommand::Defaults { toml, sources: inc } => render_defaults(
            fields,
            sources,
            metadata_output_format(toml),
            inc,
        ),
        ConfigCommand::JsonSchema { sources: inc } => render_json_schema(fields, sources, inc),
    }
}

} // verus!
