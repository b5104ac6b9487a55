//! Metadata records of the index: reading a record table, checking and
//! patching it, completing it with defaults, and writing the index.
use vstd::prelude::*;
use crate::config::{MetadataFieldConfig, MetadataFieldKind};
use crate::handlers::code_actions::entry_lookup;
use crate::metadata::is_note_id;
use crate::metadata_schema::{default_metadata, default_metadata_table, key_index, key_index_exec, table_set, table_set_exec};
use crate::note_ops::entry_value;
use crate::parser::{checklist_status_from_name, starts_with, ChecklistStatus, Relation};
use crate::text::{chars_of, str_eq};
use crate::toml_value::{
    copy_toml, entry_models, lemma_entry_models, lemma_toml_models, toml_model, toml_models, TomlModel, TomlValue,
};

verus! {

/// The core fields of a record, in their canonical order.
pub open spec fn core_fields() -> Seq<Seq<char>> {
    seq![
        "schema-version"@,
        "aliases"@,
        "abstract"@,
        "keywords"@,
        "generated"@,
        "checklist-status"@,
        "relation"@,
        "relation-target"@,
    ]
}

/// Whether `key` is a core field.
pub fn is_core_field(key: &str) -> (r: bool)
    ensures
        r == core_fields().contains(key@),
{
    let r = str_eq(key, "schema-version") || str_eq(key, "aliases") || str_eq(key, "abstract") || str_eq(key, "keywords")
        || str_eq(key, "generated") || str_eq(key, "checklist-status") || str_eq(key, "relation") || str_eq(
        key,
        "relation-target",
    );
    proof {
        let c = core_fields();
        if r {
            if key@ == "schema-version"@ {
                assert(c[0] == key@);
            } else if key@ == "aliases"@ {
                assert(c[1] == key@);
            } else if key@ == "abstract"@ {
                assert(c[2] == key@);
            } else if key@ == "keywords"@ {
                assert(c[3] == key@);
            } else if key@ == "generated"@ {
                assert(c[4] == key@);
            } else if key@ == "checklist-status"@ {
                assert(c[5] == key@);
            } else if key@ == "relation"@ {
                assert(c[6] == key@);
            } else {
                assert(c[7] == key@);
            }
        } else {
            assert forall|i: int| 0 <= i < c.len() implies c[i] != key@ by {}
        }
    }
    r
}

/// A metadata record read from its table.
#[derive(Debug)]
pub struct MetadataRecord {
    pub schema_version: u32,
    pub aliases: Vec<String>,
    pub abstract_text: Option<String>,
    pub keywords: Vec<String>,
    pub generated: bool,
    pub checklist_status: ChecklistStatus,
    pub relation: Relation,
    pub relation_target: Vec<String>,
    /// The non-core entries of the table.
    pub extra: Vec<(String, TomlValue)>,
}

pub struct RecordModel {
    pub schema_version: u32,
    pub aliases: Seq<Seq<char>>,
    pub abstract_text: Option<Seq<char>>,
    pub keywords: Seq<Seq<char>>,
    pub generated: bool,
    pub checklist_status: ChecklistStatus,
    pub relation: Relation,
    pub relation_target: Seq<Seq<char>>,
    pub extra: Seq<(Seq<char>, TomlModel)>,
}

pub open spec fn names_of(v: Seq<String>) -> Seq<Seq<char>> {
    v.map_values(|s: String| s@)
}

impl View for MetadataRecord {
    type V = RecordModel;

    open spec fn view(&self) -> RecordModel {
        RecordModel {
            schema_version: self.schema_version,
            aliases: names_of(self.aliases@),
            abstract_text: match self.abstract_text {
                Some(s) => Some(s@),
                None => None,
            },
            keywords: names_of(self.keywords@),
            generated: self.generated,
            checklist_status: self.checklist_status,
            relation: self.relation,
            relation_target: names_of(self.relation_target@),
            extra: entry_models(self.extra@),
        }
    }
}

impl Default for MetadataRecord {
    fn default() -> (r: Self)
        ensures
            r@ == (RecordModel {
                schema_version: 1,
                aliases: seq![],
                abstract_text: None,
                keywords: seq![],
                generated: true,
                checklist_status: ChecklistStatus::NotApplicable,
                relation: Relation::Active,
                relation_target: seq![],
                extra: seq![],
            }),
    {
        let r = MetadataRecord {
            schema_version: 1,
            aliases: Vec::new(),
            abstract_text: None,
            keywords: Vec::new(),
            generated: true,
            checklist_status: ChecklistStatus::NotApplicable,
            relation: Relation::Active,
            relation_target: Vec::new(),
            extra: Vec::new(),
        };
        assert(names_of(r.aliases@) =~= Seq::<Seq<char>>::empty());
        assert(names_of(r.keywords@) =~= Seq::<Seq<char>>::empty());
        assert(names_of(r.relation_target@) =~= Seq::<Seq<char>>::empty());
        assert(entry_models(r.extra@) =~= Seq::<(Seq<char>, TomlModel)>::empty());
        r
    }
}

/// The strings among the first `n` items.
pub open spec fn strings_upto(items: Seq<TomlModel>, n: int) -> Seq<Seq<char>>
    decreases n,
{
    if n <= 0 {
        seq![]
    } else {
        let prev = strings_upto(items, n - 1);
        match items[n - 1] {
            TomlModel::String(s) => prev.push(s),
            _ => prev,
        }
    }
}

/// The strings of an array value; nothing for a missing or other value.
pub open spec fn string_array(v: Option<TomlModel>) -> Seq<Seq<char>> {
    match v {
        Some(TomlModel::Array(items)) => strings_upto(items, items.len() as int),
        _ => seq![],
    }
}

/// The entries of `t[..n]` whose key is not a core field.
pub open spec fn extra_upto(t: Seq<(Seq<char>, TomlModel)>, n: int) -> Seq<(Seq<char>, TomlModel)>
    decreases n,
{
    if n <= 0 {
        seq![]
    } else if core_fields().contains(t[n - 1].0) {
        extra_upto(t, n - 1)
    } else {
        extra_upto(t, n - 1).push(t[n - 1])
    }
}

pub open spec fn relation_of_name(s: Seq<char>) -> Relation {
    if s == "archived"@ {
        Relation::Archived
    } else if s == "legacy"@ {
        Relation::Legacy
    } else {
        Relation::Active
    }
}

/// A record read from its table, each field falling back to its default
/// when missing or of another type.
pub open spec fn record_of(t: Seq<(Seq<char>, TomlModel)>) -> RecordModel {
    RecordModel {
        schema_version: match entry_value(t, "schema-version"@, 0) {
            Some(TomlModel::Integer(n)) => n as u32,
            _ => 1,
        },
        aliases: string_array(entry_value(t, "aliases"@, 0)),
        abstract_text: match entry_value(t, "abstract"@, 0) {
            Some(TomlModel::String(s)) => if s.len() > 0 {
                Some(s)
            } else {
                None
            },
            _ => None,
        },
        keywords: string_array(entry_value(t, "keywords"@, 0)),
        generated: match entry_value(t, "generated"@, 0) {
            Some(TomlModel::Boolean(b)) => b,
            _ => true,
        },
        checklist_status: match entry_value(t, "checklist-status"@, 0) {
            Some(TomlModel::String(s)) => match checklist_status_from_name(s) {
                Some(st) => st,
                None => ChecklistStatus::NotApplicable,
            },
            _ => ChecklistStatus::NotApplicable,
        },
        relation: match entry_value(t, "relation"@, 0) {
            Some(TomlModel::String(s)) => relation_of_name(s),
            _ => Relation::Active,
        },
        relation_target: string_array(entry_value(t, "relation-target"@, 0)),
        extra: extra_upto(t, t.len() as int),
    }
}

fn string_array_exec(v: Option<&TomlValue>) -> (r: Vec<String>)
    ensures
        names_of(r@) == string_array(
            match v {
                Some(x) => Some(x@),
                None => None,
            },
        ),
{
    let mut out: Vec<String> = Vec::new();
    match v {
        Some(TomlValue::Array(items)) => {
            proof {
                lemma_toml_models(items@);
            }
            let ghost im = toml_models(items@);
            let mut k: usize = 0;
            assert(names_of(out@) =~= strings_upto(im, 0));
            while k < items.len()
                invariant
                    k <= items.len(),
                    im == toml_models(items@),
                    im.len() == items.len(),
                    forall|i: int| 0 <= i < items.len() ==> #[trigger] im[i] == toml_model(items@[i]),
                    names_of(out@) == strings_upto(im, k as int),
                decreases items.len() - k,
            {
                assert(im[k as int] == items@[k as int]@);
                match &items[k] {
                    TomlValue::String(s) => {
                        let ghost before = names_of(out@);
                        out.push(s.clone());
                        assert(names_of(out@) =~= before.push(s@));
                    },
                    _ => {},
                }
                k += 1;
            }
        },
        _ => {
            assert(names_of(out@) =~= Seq::<Seq<char>>::empty());
        },
    }
    out
}

fn opt_view(v: Option<&TomlValue>) -> (r: Ghost<Option<TomlModel>>)
    ensures
        r@ == match v {
            Some(x) => Some(x@),
            None => None::<TomlModel>,
        },
{
    Ghost(
        match v {
            Some(x) => Some(x@),
            None => None,
        },
    )
}

/// Reads a record from its table (`record_of`).
pub fn parse_record_table(table: &Vec<(String, TomlValue)>) -> (r: Option<MetadataRecord>)
    ensures
        r matches Some(rec) && rec@ == record_of(entry_models(table@)),
{
    let ghost tm = entry_models(table@);
    let schema_version = match entry_lookup(table, "schema-version") {
        Some(TomlValue::Integer(n)) => #[verifier::truncate] (*n as u32),
        _ => 1,
    };
    let generated = match entry_lookup(table, "generated") {
        Some(TomlValue::Boolean(b)) => *b,
        _ => true,
    };
    let aliases = string_array_exec(entry_lookup(table, "aliases"));
    let keywords = string_array_exec(entry_lookup(table, "keywords"));
    let abstract_text = match entry_lookup(table, "abstract") {
        Some(TomlValue::String(s)) => if !str_eq(s.as_str(), "") {
            proof {
                reveal_strlit("");
                if s@.len() == 0 {
                    assert(s@ =~= ""@);
                }
            }
            Some(s.clone())
        } else {
            proof {
                reveal_strlit("");
                assert(s@.len() == 0);
            }
            None
        },
        _ => None,
    };
    let checklist_status = match entry_lookup(table, "checklist-status") {
        Some(TomlValue::String(s)) => match ChecklistStatus::from_str(s.as_str()) {
            Some(st) => st,
            None => ChecklistStatus::NotApplicable,
        },
        _ => ChecklistStatus::NotApplicable,
    };
    let relation = match entry_lookup(table, "relation") {
        Some(TomlValue::String(s)) => if str_eq(s.as_str(), "archived") {
            Relation::Archived
        } else if str_eq(s.as_str(), "legacy") {
            Relation::Legacy
        } else {
            Relation::Active
        },
        _ => Relation::Active,
    };
    let relation_target = string_array_exec(entry_lookup(table, "relation-target"));
    proof {
        lemma_entry_models(table@);
    }
    let mut extra: Vec<(String, TomlValue)> = Vec::new();
    let mut k: usize = 0;
    assert(entry_models(extra@) =~= extra_upto(tm, 0));
    while k < table.len()
        invariant
            k <= table.len(),
            tm == entry_models(table@),
            tm.len() == table.len(),
            forall|i: int| 0 <= i < table.len() ==> #[trigger] tm[i] == (table@[i].0@, toml_model(table@[i].1)),
            entry_models(extra@) == extra_upto(tm, k as int),
        decreases table.len() - k,
    {
        if !is_core_field(table[k].0.as_str()) {
            let e = (table[k].0.clone(), copy_toml(&table[k].1));
            let ghost before = extra@;
            extra.push(e);
            assert(extra@.subrange(0, before.len() as int) =~= before);
        }
        k += 1;
    }
    let rec = MetadataRecord {
        schema_version,
        aliases,
        abstract_text,
        keywords,
        generated,
        checklist_status,
        relation,
        relation_target,
        extra,
    };
    proof {
        reveal_strlit("archived");
        reveal_strlit("legacy");
    }
    assert(rec@.relation == record_of(tm).relation);
    assert(rec@.schema_version == record_of(tm).schema_version);
    assert(rec@.aliases == record_of(tm).aliases);
    assert(rec@.abstract_text == record_of(tm).abstract_text);
    assert(rec@.generated == record_of(tm).generated);
    assert(rec@.checklist_status == record_of(tm).checklist_status);
    assert(rec@.extra == record_of(tm).extra);
    Some(rec)
}

// ---------------------------------------------------------------------------
// Checking values
// ---------------------------------------------------------------------------

/// Every item of an array is a string.
pub open spec fn all_strings(items: Seq<TomlModel>) -> bool {
    forall|i: int| 0 <= i < items.len() ==> (#[trigger] items[i]) is String
}

pub open spec fn is_string_array(v: TomlModel) -> bool {
    v matches TomlModel::Array(items) && all_strings(items)
}

/// A value fits a field kind.
pub open spec fn value_matches_kind(v: TomlModel, kind: MetadataFieldKind) -> bool {
    match kind {
        MetadataFieldKind::String => v is String,
        MetadataFieldKind::Boolean => v is Boolean,
        MetadataFieldKind::ArrayString => is_string_array(v),
    }
}

fn is_string_array_exec(v: &TomlValue) -> (r: bool)
    ensures
        r == is_string_array(v@),
{
    match v {
        TomlValue::Array(items) => {
            proof {
                lemma_toml_models(items@);
            }
            let mut k: usize = 0;
            while k < items.len()
                invariant
                    k <= items.len(),
                    toml_models(items@).len() == items.len(),
                    forall|i: int| 0 <= i < items.len() ==> #[trigger] toml_models(items@)[i] == toml_model(items@[i]),
                    forall|i: int| 0 <= i < k ==> (#[trigger] toml_models(items@)[i]) is String,
                    *v == TomlValue::Array(*items),
                decreases items.len() - k,
            {
                match &items[k] {
                    TomlValue::String(_) => {},
                    _ => {
                        assert(!(toml_models(items@)[k as int] is String));
                        assert(v@ == TomlModel::Array(toml_models(items@)));
                        assert(!all_strings(toml_models(items@)));
                        return false;
                    },
                }
                k += 1;
            }
            true
        },
        _ => false,
    }
}

fn value_matches_kind_exec(v: &TomlValue, kind: MetadataFieldKind) -> (r: bool)
    ensures
        r == value_matches_kind(v@, kind),
{
    match kind {
        MetadataFieldKind::String => match v {
            TomlValue::String(_) => true,
            _ => false,
        },
        MetadataFieldKind::Boolean => match v {
            TomlValue::Boolean(_) => true,
            _ => false,
        },
        MetadataFieldKind::ArrayString => is_string_array_exec(v),
    }
}

/// A core field's value is of its kind: schema version 1, string arrays,
/// a string, a boolean, a known status, a known relation.
pub open spec fn core_value_ok(key: Seq<char>, v: TomlModel) -> bool {
    if key == "schema-version"@ {
        v == TomlModel::Integer(1)
    } else if key == "aliases"@ || key == "keywords"@ || key == "relation-target"@ {
        is_string_array(v)
    } else if key == "abstract"@ {
        v is String
    } else if key == "generated"@ {
        v is Boolean
    } else if key == "checklist-status"@ {
        v matches TomlModel::String(s) && checklist_status_from_name(s) is Some
    } else if key == "relation"@ {
        v matches TomlModel::String(s) && (s == "active"@ || s == "archived"@ || s == "legacy"@)
    } else {
        false
    }
}

/// A rejected metadata patch or record.
#[derive(Debug, Clone, PartialEq, Eq)]
pub enum RecordError {
    /// `invalid metadata value for '{key}'`
    InvalidValue { key: String },
    /// `unknown metadata field '{key}'`
    UnknownField { key: String },
    /// `Metadata record is incomplete`
    Incomplete,
    /// `Invalid metadata for current note`
    Invalid,
}

pub enum RecordErrorModel {
    InvalidValue(Seq<char>),
    UnknownField(Seq<char>),
    Incomplete,
    Invalid,
}

impl View for RecordError {
    type V = RecordErrorModel;

    open spec fn view(&self) -> RecordErrorModel {
        match self {
            RecordError::InvalidValue { key } => RecordErrorModel::InvalidValue(key@),
            RecordError::UnknownField { key } => RecordErrorModel::UnknownField(key@),
            RecordError::Incomplete => RecordErrorModel::Incomplete,
            RecordError::Invalid => RecordErrorModel::Invalid,
        }
    }
}

pub open spec fn record_error_message(e: RecordErrorModel) -> Seq<char> {
    match e {
        RecordErrorModel::InvalidValue(key) => "invalid metadata value for '"@ + key + "'"@,
        RecordErrorModel::UnknownField(key) => "unknown metadata field '"@ + key + "'"@,
        RecordErrorModel::Incomplete => "Metadata record is incomplete"@,
        RecordErrorModel::Invalid => "Invalid metadata for current note"@,
    }
}

impl RecordError {
    /// The message shown for the error.
    pub fn message(&self) -> (r: String)
        ensures
            r@ == record_error_message(self@),
    {
        let mut out: Vec<char> = Vec::new();
        match self {
            RecordError::InvalidValue { key } => {
                crate::text::push_str(&mut out, "invalid metadata value for '");
                crate::text::push_str(&mut out, key.as_str());
                crate::text::push_str(&mut out, "'");
            },
            RecordError::UnknownField { key } => {
                crate::text::push_str(&mut out, "unknown metadata field '");
                crate::text::push_str(&mut out, key.as_str());
                crate::text::push_str(&mut out, "'");
            },
            RecordError::Incomplete => {
                crate::text::push_str(&mut out, "Metadata record is incomplete");
            },
            RecordError::Invalid => {
                crate::text::push_str(&mut out, "Invalid metadata for current note");
            },
        }
        crate::text::string_from_chars(&out)
    }
}

fn core_value_ok_exec(key: &str, v: &TomlValue) -> (r: bool)
    ensures
        r == core_value_ok(key@, v@),
{
    if str_eq(key, "schema-version") {
        match v {
            TomlValue::Integer(n) => *n == 1,
            _ => false,
        }
    } else if str_eq(key, "aliases") || str_eq(key, "keywords") || str_eq(key, "relation-target") {
        is_string_array_exec(v)
    } else if str_eq(key, "abstract") {
        match v {
            TomlValue::String(_) => true,
            _ => false,
        }
    } else if str_eq(key, "generated") {
        match v {
            TomlValue::Boolean(_) => true,
            _ => false,
        }
    } else if str_eq(key, "checklist-status") {
        match v {
            TomlValue::String(s) => ChecklistStatus::from_str(s.as_str()).is_some(),
            _ => false,
        }
    } else if str_eq(key, "relation") {
        match v {
            TomlValue::String(s) => str_eq(s.as_str(), "active") || str_eq(s.as_str(), "archived") || str_eq(
                s.as_str(),
                "legacy",
            ),
            _ => false,
        }
    } else {
        false
    }
}

/// The declared field at `path`, the first one.
pub open spec fn field_at(fields: Seq<MetadataFieldConfig>, path: Seq<char>, k: int) -> Option<int>
    decreases fields.len() - k,
{
    if k < 0 || k >= fields.len() {
        None
    } else if fields[k].path@ == path {
        Some(k)
    } else {
        field_at(fields, path, k + 1)
    }
}

/// The error of one patch entry: a core field must hold a value of its
/// kind; a `user.*` field must be declared and hold a value of its kind;
/// any other key is unknown.
pub open spec fn patch_entry_error(key: Seq<char>, v: TomlModel, fields: Seq<MetadataFieldConfig>) -> Option<RecordErrorModel> {
    if core_fields().contains(key) {
        if core_value_ok(key, v) {
            None
        } else {
            Some(RecordErrorModel::InvalidValue(key))
        }
    } else if starts_with(key, "user."@) && field_at(fields, key, 0) is Some {
        if value_matches_kind(v, fields[field_at(fields, key, 0)->0].kind) {
            None
        } else {
            Some(RecordErrorModel::InvalidValue(key))
        }
    } else {
        Some(RecordErrorModel::UnknownField(key))
    }
}

fn field_at_exec(fields: &[MetadataFieldConfig], path: &str) -> (r: Option<usize>)
    ensures
        match r {
            Some(k) => field_at(fields@, path@, 0) == Some(k as int) && k < fields.len(),
            None => field_at(fields@, path@, 0) is None,
        },
{
    let mut k: usize = 0;
    while k < fields.len()
        invariant
            k <= fields.len(),
            field_at(fields@, path@, 0) == field_at(fields@, path@, k as int),
        decreases fields.len() - k,
    {
        if str_eq(fields[k].path.as_str(), path) {
            return Some(k);
        }
        k += 1;
    }
    None
}

fn patch_entry_error_exec(key: &str, v: &TomlValue, fields: &[MetadataFieldConfig]) -> (r: Option<RecordError>)
    ensures
        match r {
            Some(e) => patch_entry_error(key@, v@, fields@) == Some(e@),
            None => patch_entry_error(key@, v@, fields@) is None,
        },
{
    if is_core_field(key) {
        if core_value_ok_exec(key, v) {
            None
        } else {
            Some(RecordError::InvalidValue { key: key.to_owned() })
        }
    } else {
        let kc = chars_of(key);
        let is_user = crate::parser::starts_with_at(&kc, 0, &['u', 's', 'e', 'r', '.']);
        proof {
            reveal_strlit("user.");
            assert(kc@.skip(0) =~= kc@);
            assert(seq!['u', 's', 'e', 'r', '.'] =~= "user."@);
        }
        if is_user {
            match field_at_exec(fields, key) {
                Some(i) => {
                    if value_matches_kind_exec(v, fields[i].kind) {
                        None
                    } else {
                        Some(RecordError::InvalidValue { key: key.to_owned() })
                    }
                },
                None => Some(RecordError::UnknownField { key: key.to_owned() }),
            }
        } else {
            Some(RecordError::UnknownField { key: key.to_owned() })
        }
    }
}

/// The first error among the patch entries `patch[..n]`, or none.
pub open spec fn patch_error_upto(patch: Seq<(Seq<char>, TomlModel)>, fields: Seq<MetadataFieldConfig>, n: int) -> Option<
    RecordErrorModel,
>
    decreases n,
{
    if n <= 0 {
        None
    } else {
        match patch_error_upto(patch, fields, n - 1) {
            Some(e) => Some(e),
            None => patch_entry_error(patch[n - 1].0, patch[n - 1].1, fields),
        }
    }
}

/// Sets one patch entry: a `user.*` key in the `user` table (made where
/// missing; a `user` that is no table is an error), any other key at the
/// top.
pub open spec fn patch_step(t: Seq<(Seq<char>, TomlModel)>, key: Seq<char>, v: TomlModel) -> Result<
    Seq<(Seq<char>, TomlModel)>,
    RecordErrorModel,
> {
    if starts_with(key, "user."@) {
        let uk = key.skip(5);
        match key_index(t, "user"@, 0) {
            None => Ok(table_set(t, "user"@, TomlModel::Table(table_set(seq![], uk, v)))),
            Some(i) => match t[i].1 {
                TomlModel::Table(es) => Ok(t.update(i, ("user"@, TomlModel::Table(table_set(es, uk, v))))),
                _ => Err(RecordErrorModel::Invalid),
            },
        }
    } else {
        Ok(table_set(t, key, v))
    }
}

/// The table and the outcome after the patch entries `patch[..n]`: each
/// entry is checked, then set; the first error stops the patch.
pub open spec fn patch_upto(
    t: Seq<(Seq<char>, TomlModel)>,
    patch: Seq<(Seq<char>, TomlModel)>,
    fields: Seq<MetadataFieldConfig>,
    n: int,
) -> (Seq<(Seq<char>, TomlModel)>, Option<RecordErrorModel>)
    decreases n,
{
    if n <= 0 {
        (t, None)
    } else {
        let (cur, err) = patch_upto(t, patch, fields, n - 1);
        if err is Some {
            (cur, err)
        } else {
            match patch_entry_error(patch[n - 1].0, patch[n - 1].1, fields) {
                Some(e) => (cur, Some(e)),
                None => match patch_step(cur, patch[n - 1].0, patch[n - 1].1) {
                    Ok(next) => (next, None),
                    Err(e) => (cur, Some(e)),
                },
            }
        }
    }
}

/// Checks and applies a patch of metadata keys to a record table.
pub fn apply_patch_to_table(
    table: &mut Vec<(String, TomlValue)>,
    patch: &[(String, TomlValue)],
    metadata_fields: &[MetadataFieldConfig],
) -> (r: Result<(), RecordError>)
    ensures
        ({
            let (t, err) = patch_upto(entry_models(old(table)@), entry_models(patch@), metadata_fields@, patch.len() as int);
            &&& entry_models(final(table)@) == t
            &&& match r {
                Ok(()) => err is None,
                Err(e) => err == Some(e@),
            }
        }),
{
    let ghost t0 = entry_models(table@);
    let ghost pm = entry_models(patch@);
    proof {
        lemma_entry_models(patch@);
    }
    let mut k: usize = 0;
    while k < patch.len()
        invariant
            k <= patch.len(),
            pm == entry_models(patch@),
            pm.len() == patch.len(),
            forall|i: int| 0 <= i < patch.len() ==> #[trigger] pm[i] == (patch@[i].0@, toml_model(patch@[i].1)),
            t0 == entry_models(old(table)@),
            patch_upto(t0, pm, metadata_fields@, k as int) == (entry_models(table@), None::<RecordErrorModel>),
        decreases patch.len() - k,
    {
        let key = patch[k].0.as_str();
        let value = &patch[k].1;
        assert(pm[k as int] == (key@, value@));
        match patch_entry_error_exec(key, value, metadata_fields) {
            Some(e) => {
                proof {
                    lemma_patch_stops(t0, pm, metadata_fields@, k + 1, patch.len() as int);
                }
                return Err(e);
            },
            None => {},
        }
        let kc = chars_of(key);
        let is_user = crate::parser::starts_with_at(&kc, 0, &['u', 's', 'e', 'r', '.']);
        proof {
            reveal_strlit("user.");
            assert(kc@.skip(0) =~= kc@);
            assert(seq!['u', 's', 'e', 'r', '.'] =~= "user."@);
        }
        if is_user {
            let uk = crate::text::string_from_range(&kc, 5, kc.len());
            assert(uk@ =~= key@.skip(5));
            match key_index_exec(table, "user") {
                None => {
                    let mut inner: Vec<(String, TomlValue)> = Vec::new();
                    assert(entry_models(inner@) =~= Seq::<(Seq<char>, TomlModel)>::empty());
                    table_set_exec(&mut inner, uk, copy_toml(value));
                    table_set_exec(table, "user".to_owned(), TomlValue::Table(inner));
                },
                Some(i) => {
                    proof {
                        lemma_entry_models(table@);
                    }
                    let ghost tb = entry_models(table@);
                    assert(tb[i as int] == (table@[i as int].0@, toml_model(table@[i as int].1)));
                    match copy_toml(&table[i].1) {
                        TomlValue::Table(mut es) => {
                            table_set_exec(&mut es, uk, copy_toml(value));
                            let ghost before = table@;
                            let e = ("user".to_owned(), TomlValue::Table(es));
                            proof {
                                crate::metadata_schema::lemma_entry_models_update_pub(before, i as int, e);
                            }
                            table.set(i, e);
                        },
                        _ => {
                            proof {
                                lemma_patch_stops(t0, pm, metadata_fields@, k + 1, patch.len() as int);
                            }
                            return Err(RecordError::Invalid);
                        },
                    }
                },
            }
        } else {
            table_set_exec(table, key.to_owned(), copy_toml(value));
        }
        k += 1;
    }
    Ok(())
}

proof fn lemma_patch_stops(
    t: Seq<(Seq<char>, TomlModel)>,
    patch: Seq<(Seq<char>, TomlModel)>,
    fields: Seq<MetadataFieldConfig>,
    k: int,
    n: int,
)
    requires
        0 <= k <= n,
        patch_upto(t, patch, fields, k).1 is Some,
    ensures
        patch_upto(t, patch, fields, n) == patch_upto(t, patch, fields, k),
    decreases n - k,
{
    if n > k {
        lemma_patch_stops(t, patch, fields, k, n - 1);
    }
}

// ---------------------------------------------------------------------------
// Reading a record
// ---------------------------------------------------------------------------

pub open spec fn has_key(t: Seq<(Seq<char>, TomlModel)>, key: Seq<char>) -> bool {
    entry_value(t, key, 0) is Some
}

pub open spec fn enum_ok(t: Seq<(Seq<char>, TomlModel)>, key: Seq<char>, values: Seq<Seq<char>>) -> bool {
    entry_value(t, key, 0) matches Some(TomlModel::String(s)) && values.contains(s)
}

/// The problem of `user.*` fields among `fields[..n]`: a declared field
/// missing from the `user` table, or of another kind.
pub open spec fn user_fields_error(user: Seq<(Seq<char>, TomlModel)>, fields: Seq<MetadataFieldConfig>, n: int) -> Option<RecordErrorModel>
    decreases n,
{
    if n <= 0 {
        None
    } else {
        match user_fields_error(user, fields, n - 1) {
            Some(e) => Some(e),
            None => {
                let f = fields[n - 1];
                if !starts_with(f.path@, "user."@) {
                    None
                } else {
                    match entry_value(user, f.path@.skip(5), 0) {
                        None => Some(RecordErrorModel::Incomplete),
                        Some(v) => if value_matches_kind(v, f.kind) {
                            None
                        } else {
                            Some(RecordErrorModel::Invalid)
                        },
                    }
                }
            },
        }
    }
}

/// Why a record table cannot be read: a missing core field, then a core
/// field of the wrong kind, then a `user` that is no table, then a declared
/// `user.*` field missing or of the wrong kind.
pub open spec fn read_error(t: Seq<(Seq<char>, TomlModel)>, fields: Seq<MetadataFieldConfig>) -> Option<RecordErrorModel> {
    if exists|i: int| 0 <= i < 8 && !has_key(t, #[trigger] core_fields()[i]) {
        Some(RecordErrorModel::Incomplete)
    } else if !(entry_value(t, "schema-version"@, 0) == Some(TomlModel::Integer(1)))
        || !(entry_value(t, "aliases"@, 0) matches Some(v) && is_string_array(v))
        || !(entry_value(t, "keywords"@, 0) matches Some(v) && is_string_array(v))
        || !(entry_value(t, "relation-target"@, 0) matches Some(v) && is_string_array(v))
        || !(entry_value(t, "abstract"@, 0) matches Some(TomlModel::String(_)))
        || !(entry_value(t, "generated"@, 0) matches Some(TomlModel::Boolean(_)))
        || !enum_ok(t, "checklist-status"@, seq!["none"@, "todo"@, "wip"@, "done"@])
        || !enum_ok(t, "relation"@, seq!["active"@, "archived"@, "legacy"@]) {
        Some(RecordErrorModel::Invalid)
    } else {
        match entry_value(t, "user"@, 0) {
            Some(TomlModel::Table(user)) => user_fields_error(user, fields, fields.len() as int),
            Some(_) => Some(RecordErrorModel::Invalid),
            None => user_fields_error(seq![], fields, fields.len() as int),
        }
    }
}

fn has_key_exec(t: &Vec<(String, TomlValue)>, key: &str) -> (r: bool)
    ensures
        r == has_key(entry_models(t@), key@),
{
    entry_lookup(t, key).is_some()
}

fn string_array_field(t: &Vec<(String, TomlValue)>, key: &str) -> (r: bool)
    ensures
        r == (entry_value(entry_models(t@), key@, 0) matches Some(v) && is_string_array(v)),
{
    match entry_lookup(t, key) {
        Some(v) => is_string_array_exec(v),
        None => false,
    }
}

fn enum_field(t: &Vec<(String, TomlValue)>, key: &str, values: &[&str]) -> (r: bool)
    ensures
        r == enum_ok(entry_models(t@), key@, values@.map_values(|s: &str| s@)),
{
    match entry_lookup(t, key) {
        Some(TomlValue::String(s)) => {
            let ghost vs = values@.map_values(|s: &str| s@);
            let mut k: usize = 0;
            while k < values.len()
                invariant
                    k <= values.len(),
                    vs == values@.map_values(|s: &str| s@),
                    forall|i: int| 0 <= i < k ==> vs[i] != s@,
                    entry_value(entry_models(t@), key@, 0) == Some(TomlModel::String(s@)),
                decreases values.len() - k,
            {
                if str_eq(values[k], s.as_str()) {
                    assert(vs[k as int] == s@);
                    assert(vs.contains(s@));
                    return true;
                }
                k += 1;
            }
            false
        },
        _ => false,
    }
}

/// Checks that a record table can be read (`read_error`).
pub fn validate_record_table_for_read(table: &Vec<(String, TomlValue)>, metadata_fields: &[MetadataFieldConfig]) -> (r: Result<
    (),
    RecordError,
>)
    ensures
        match r {
            Ok(()) => read_error(entry_models(table@), metadata_fields@) is None,
            Err(e) => read_error(entry_models(table@), metadata_fields@) == Some(e@),
        },
{
    let ghost t = entry_models(table@);
    let all_present = has_key_exec(table, "schema-version") && has_key_exec(table, "aliases") && has_key_exec(table, "abstract")
        && has_key_exec(table, "keywords") && has_key_exec(table, "generated") && has_key_exec(table, "checklist-status")
        && has_key_exec(table, "relation") && has_key_exec(table, "relation-target");
    proof {
        let c = core_fields();
        if all_present {
            assert forall|i: int| 0 <= i < 8 implies has_key(t, #[trigger] c[i]) by {}
        } else {
            if !has_key(t, c[0]) {
            } else if !has_key(t, c[1]) {
            } else if !has_key(t, c[2]) {
            } else if !has_key(t, c[3]) {
            } else if !has_key(t, c[4]) {
            } else if !has_key(t, c[5]) {
            } else if !has_key(t, c[6]) {
            } else {
                assert(!has_key(t, c[7]));
            }
        }
    }
    if !all_present {
        return Err(RecordError::Incomplete);
    }
    let schema_ok = match entry_lookup(table, "schema-version") {
        Some(TomlValue::Integer(n)) => *n == 1,
        _ => false,
    };
    let abstract_ok = match entry_lookup(table, "abstract") {
        Some(TomlValue::String(_)) => true,
        _ => false,
    };
    let generated_ok = match entry_lookup(table, "generated") {
        Some(TomlValue::Boolean(_)) => true,
        _ => false,
    };
    let ok = schema_ok && string_array_field(table, "aliases") && string_array_field(table, "keywords") && string_array_field(
        table,
        "relation-target",
    ) && abstract_ok && generated_ok && enum_field(table, "checklist-status", &["none", "todo", "wip", "done"]) && enum_field(
        table,
        "relation",
        &["active", "archived", "legacy"],
    );
    proof {
        assert(seq!["none", "todo", "wip", "done"].map_values(|s: &str| s@) =~= seq!["none"@, "todo"@, "wip"@, "done"@]);
        assert(seq!["active", "archived", "legacy"].map_values(|s: &str| s@) =~= seq!["active"@, "archived"@, "legacy"@]);
    }
    if !ok {
        return Err(RecordError::Invalid);
    }
    let empty: Vec<(String, TomlValue)> = Vec::new();
    assert(entry_models(empty@) =~= Seq::<(Seq<char>, TomlModel)>::empty());
    let user: &Vec<(String, TomlValue)> = match entry_lookup(table, "user") {
        Some(TomlValue::Table(u)) => u,
        Some(_) => {
            return Err(RecordError::Invalid);
        },
        None => &empty,
    };
    let ghost um = entry_models(user@);
    assert(read_error(t, metadata_fields@) == user_fields_error(um, metadata_fields@, metadata_fields.len() as int));
    let mut k: usize = 0;
    while k < metadata_fields.len()
        invariant
            k <= metadata_fields.len(),
            um == entry_models(user@),
            t == entry_models(table@),
            read_error(t, metadata_fields@) == user_fields_error(um, metadata_fields@, metadata_fields.len() as int),
            user_fields_error(um, metadata_fields@, k as int) is None,
        decreases metadata_fields.len() - k,
    {
        let f = &metadata_fields[k];
        let pc = chars_of(f.path.as_str());
        let is_user = crate::parser::starts_with_at(&pc, 0, &['u', 's', 'e', 'r', '.']);
        proof {
            reveal_strlit("user.");
            assert(pc@.skip(0) =~= pc@);
            assert(seq!['u', 's', 'e', 'r', '.'] =~= "user."@);
        }
        if is_user {
            let uk = crate::text::string_from_range(&pc, 5, pc.len());
            assert(uk@ =~= f.path@.skip(5));
            match entry_lookup(user, uk.as_str()) {
                None => {
                    proof {
                        lemma_user_error_stops(um, metadata_fields@, k + 1, metadata_fields.len() as int);
                    }
                    return Err(RecordError::Incomplete);
                },
                Some(v) => {
                    if !value_matches_kind_exec(v, f.kind) {
                        proof {
                            lemma_user_error_stops(um, metadata_fields@, k + 1, metadata_fields.len() as int);
                        }
                        return Err(RecordError::Invalid);
                    }
                },
            }
        }
        k += 1;
    }
    Ok(())
}

proof fn lemma_user_error_stops(user: Seq<(Seq<char>, TomlModel)>, fields: Seq<MetadataFieldConfig>, k: int, n: int)
    requires
        0 <= k <= n,
        user_fields_error(user, fields, k) is Some,
    ensures
        user_fields_error(user, fields, n) == user_fields_error(user, fields, k),
    decreases n - k,
{
    if n > k {
        lemma_user_error_stops(user, fields, k, n - 1);
    }
}

/// Reads a record table that passes the read checks.
pub fn parse_record_for_read(table: &Vec<(String, TomlValue)>, metadata_fields: &[MetadataFieldConfig]) -> (r: Result<
    MetadataRecord,
    RecordError,
>)
    ensures
        match r {
            Ok(rec) => read_error(entry_models(table@), metadata_fields@) is None && rec@ == record_of(entry_models(table@)),
            Err(e) => read_error(entry_models(table@), metadata_fields@) == Some(e@),
        },
{
    match validate_record_table_for_read(table, metadata_fields) {
        Err(e) => Err(e),
        Ok(()) => match parse_record_table(table) {
            Some(rec) => Ok(rec),
            None => Err(RecordError::Invalid),
        },
    }
}


// ---------------------------------------------------------------------------
// Completing a record with defaults
// ---------------------------------------------------------------------------

/// `t` completed from the defaults `d[..n]`: a key that `t` lacks gets its
/// default; where both hold a table, the two are merged in turn; any other
/// value of `t` stays.
pub open spec fn merge_upto(t: Seq<(Seq<char>, TomlModel)>, d: Seq<(Seq<char>, TomlModel)>, n: int) -> Seq<
    (Seq<char>, TomlModel),
>
    decreases d, n,
{
    if n <= 0 || n > d.len() {
        t
    } else {
        let cur = merge_upto(t, d, n - 1);
        let key = d[n - 1].0;
        match key_index(cur, key, 0) {
            None => cur.push(d[n - 1]),
            Some(i) => match (cur[i].1, d[n - 1].1) {
                (TomlModel::Table(tt), TomlModel::Table(dt)) => {
                    proof {
                        assert(decreases_to!(d => d[n - 1]));
                        assert(decreases_to!(d[n - 1] => d[n - 1].1));
                    }
                    cur.update(i, (key, TomlModel::Table(merge_upto(tt, dt, dt.len() as int))))
                },
                _ => cur,
            },
        }
    }
}

/// `t` completed from all of `d`.
pub open spec fn merge_missing(t: Seq<(Seq<char>, TomlModel)>, d: Seq<(Seq<char>, TomlModel)>) -> Seq<
    (Seq<char>, TomlModel),
> {
    merge_upto(t, d, d.len() as int)
}

/// Completes `target` from `defaults` (`merge_missing`).
pub(crate) fn merge_missing_values(target: &mut Vec<(String, TomlValue)>, defaults: &Vec<(String, TomlValue)>)
    ensures
        entry_models(final(target)@) == merge_missing(entry_models(old(target)@), entry_models(defaults@)),
    decreases defaults@,
{
    let ghost t0 = entry_models(target@);
    let ghost dm = entry_models(defaults@);
    proof {
        lemma_entry_models(defaults@);
    }
    let mut k: usize = 0;
    while k < defaults.len()
        invariant
            k <= defaults.len(),
            dm == entry_models(defaults@),
            dm.len() == defaults.len(),
            forall|i: int| 0 <= i < defaults.len() ==> #[trigger] dm[i] == (defaults@[i].0@, toml_model(defaults@[i].1)),
            t0 == entry_models(old(target)@),
            entry_models(target@) == merge_upto(t0, dm, k as int),
        decreases defaults.len() - k,
    {
        let key = &defaults[k].0;
        let dv = &defaults[k].1;
        assert(dm[k as int] == (key@, dv@));
        let ghost cur = entry_models(target@);
        match key_index_exec(target, key.as_str()) {
            None => {
                let e = (key.clone(), copy_toml(dv));
                proof {
                    crate::metadata_schema::lemma_entry_models_push_pub(target@, e);
                }
                target.push(e);
            },
            Some(i) => {
                proof {
                    lemma_entry_models(target@);
                }
                assert(cur[i as int] == (target@[i as int].0@, toml_model(target@[i as int].1)));
                match (copy_toml(&target[i].1), dv) {
                    (TomlValue::Table(mut tt), TomlValue::Table(dt)) => {
                        proof {
                            assert(decreases_to!(defaults@ => defaults@[k as int]));
                            assert(decreases_to!(defaults@[k as int] => defaults@[k as int].1));
                            assert(decreases_to!(defaults@[k as int].1 => *dt));
                            assert(decreases_to!(*dt => dt@));
                        }
                        merge_missing_values(&mut tt, dt);
                        let e = (key.clone(), TomlValue::Table(tt));
                        proof {
                            crate::metadata_schema::lemma_entry_models_update_pub(target@, i as int, e);
                        }
                        target.set(i, e);
                    },
                    _ => {},
                }
            },
        }
        k += 1;
    }
}

/// The default record table: the core defaults, then the configured
/// fields' defaults (`default_metadata`).
pub fn default_record_table(metadata_fields: &[MetadataFieldConfig]) -> (r: Vec<(String, TomlValue)>)
    ensures
        entry_models(r@) == default_metadata(metadata_fields@),
{
    default_metadata_table(metadata_fields)
}

/// Adds to a record table every default it lacks, keeping the values it
/// has; tables are completed key by key.
pub fn complete_record_table(table: &mut Vec<(String, TomlValue)>, metadata_fields: &[MetadataFieldConfig])
    ensures
        entry_models(final(table)@) == merge_missing(entry_models(old(table)@), default_metadata(metadata_fields@)),
{
    let defaults = default_record_table(metadata_fields);
    merge_missing_values(table, &defaults);
}

// ---------------------------------------------------------------------------
// Canonical order
// ---------------------------------------------------------------------------

/// The entry of `key` in `t`, if any, as a sequence of at most one entry.
pub open spec fn opt_entry(t: Seq<(Seq<char>, TomlModel)>, key: Seq<char>) -> Seq<(Seq<char>, TomlModel)> {
    match entry_value(t, key, 0) {
        Some(v) => seq![(key, v)],
        None => seq![],
    }
}

/// The entries of `t[..n]` that are neither core fields nor `user`.
pub open spec fn others_upto(t: Seq<(Seq<char>, TomlModel)>, n: int) -> Seq<(Seq<char>, TomlModel)>
    decreases n,
{
    if n <= 0 {
        seq![]
    } else if core_fields().contains(t[n - 1].0) || t[n - 1].0 == "user"@ {
        others_upto(t, n - 1)
    } else {
        others_upto(t, n - 1).push(t[n - 1])
    }
}

/// A record table in canonical order: the core fields in their order, the
/// other entries, then `user`.
pub open spec fn canonical_record(t: Seq<(Seq<char>, TomlModel)>) -> Seq<(Seq<char>, TomlModel)> {
    opt_entry(t, "schema-version"@) + opt_entry(t, "aliases"@) + opt_entry(t, "abstract"@) + opt_entry(t, "keywords"@)
        + opt_entry(t, "generated"@) + opt_entry(t, "checklist-status"@) + opt_entry(t, "relation"@) + opt_entry(
        t,
        "relation-target"@,
    ) + others_upto(t, t.len() as int) + opt_entry(t, "user"@)
}

fn push_opt_entry(out: &mut Vec<(String, TomlValue)>, t: &Vec<(String, TomlValue)>, key: &str)
    ensures
        entry_models(final(out)@) == entry_models(old(out)@) + opt_entry(entry_models(t@), key@),
{
    match entry_lookup(t, key) {
        Some(v) => {
            let e = (key.to_owned(), copy_toml(v));
            proof {
                crate::metadata_schema::lemma_entry_models_push_pub(out@, e);
            }
            out.push(e);
            assert(entry_models(out@) =~= entry_models(old(out)@) + opt_entry(entry_models(t@), key@));
        },
        None => {
            assert(entry_models(out@) =~= entry_models(old(out)@) + opt_entry(entry_models(t@), key@));
        },
    }
}

/// A record table in canonical order (`canonical_record`).
pub fn canonical_record_table(table: &Vec<(String, TomlValue)>) -> (r: Vec<(String, TomlValue)>)
    ensures
        entry_models(r@) == canonical_record(entry_models(table@)),
{
    let ghost tm = entry_models(table@);
    let mut out: Vec<(String, TomlValue)> = Vec::new();
    assert(entry_models(out@) =~= Seq::<(Seq<char>, TomlModel)>::empty());
    push_opt_entry(&mut out, table, "schema-version");
    push_opt_entry(&mut out, table, "aliases");
    push_opt_entry(&mut out, table, "abstract");
    push_opt_entry(&mut out, table, "keywords");
    push_opt_entry(&mut out, table, "generated");
    push_opt_entry(&mut out, table, "checklist-status");
    push_opt_entry(&mut out, table, "relation");
    push_opt_entry(&mut out, table, "relation-target");
    let ghost head = entry_models(out@);
    proof {
        lemma_entry_models(table@);
        assert(head =~= opt_entry(tm, "schema-version"@) + opt_entry(tm, "aliases"@) + opt_entry(tm, "abstract"@)
            + opt_entry(tm, "keywords"@) + opt_entry(tm, "generated"@) + opt_entry(tm, "checklist-status"@)
            + opt_entry(tm, "relation"@) + opt_entry(tm, "relation-target"@));
    }
    let mut k: usize = 0;
    while k < table.len()
        invariant
            k <= table.len(),
            tm == entry_models(table@),
            tm.len() == table.len(),
            forall|i: int| 0 <= i < table.len() ==> #[trigger] tm[i] == (table@[i].0@, toml_model(table@[i].1)),
            entry_models(out@) == head + others_upto(tm, k as int),
        decreases table.len() - k,
    {
        let key = table[k].0.as_str();
        assert(tm[k as int].0 == key@);
        let skip = is_core_field(key) || str_eq(key, "user");
        if !skip {
            let e = (table[k].0.clone(), copy_toml(&table[k].1));
            proof {
                crate::metadata_schema::lemma_entry_models_push_pub(out@, e);
            }
            out.push(e);
        }
        assert(entry_models(out@) =~= head + others_upto(tm, k + 1));
        k += 1;
    }
    push_opt_entry(&mut out, table, "user");
    out
}

} // verus!
