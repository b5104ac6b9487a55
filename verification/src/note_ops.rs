//! Building new notes: note ID checks, metadata overrides and the inline
//! metadata block of a new note.
use vstd::prelude::*;
use crate::config::MetadataFieldConfig;
use crate::metadata::{is_note_id, note_id_spec};
use crate::parser::starts_with;
use crate::text::{replace_all, chars_of, join_lines, join_parts, join_sep, push_chars, push_str, string_from_chars, views};
use crate::reconcile::observe::first_index;
use crate::json_value::{json_model, json_models, json_object_document, lemma_json_models, lemma_member_models, member_models, parse_json_object, JsonModel, JsonValue};
use crate::toml_value::{parse_toml_document, toml_document, copy_toml, entry_models, lemma_toml_models, toml_display, toml_model, toml_models, toml_text, TomlModel, TomlValue};

verus! {

/// A note ID that is not ten ASCII decimal digits.
#[derive(Debug, Clone, PartialEq, Eq)]
pub struct InvalidNoteId {
    pub id: String,
}

impl InvalidNoteId {
    /// The message shown for the error.
    pub fn message(&self) -> (r: String)
        ensures
            r@ == "invalid note ID \""@ + self.id@ + "\": must be exactly 10 decimal digits (YYMMDDHHMM)"@,
    {
        let mut v = crate::text::chars_of("invalid note ID \"");
        let idc = crate::text::chars_of(self.id.as_str());
        let tail = crate::text::chars_of("\": must be exactly 10 decimal digits (YYMMDDHHMM)");
        let ghost start = v@;
        let mut k: usize = 0;
        while k < idc.len()
            invariant
                k <= idc.len(),
                v@ == start + idc@.take(k as int),
            decreases idc.len() - k,
        {
            v.push(idc[k]);
            assert(idc@.take(k + 1) =~= idc@.take(k as int).push(idc@[k as int]));
            k += 1;
        }
        assert(idc@.take(idc.len() as int) =~= idc@);
        let ghost mid = v@;
        let mut j: usize = 0;
        while j < tail.len()
            invariant
                j <= tail.len(),
                v@ == mid + tail@.take(j as int),
            decreases tail.len() - j,
        {
            v.push(tail[j]);
            assert(tail@.take(j + 1) =~= tail@.take(j as int).push(tail@[j as int]));
            j += 1;
        }
        assert(tail@.take(tail.len() as int) =~= tail@);
        crate::text::string_from_chars(&v)
    }
}

/// Checks that a note ID is exactly ten ASCII decimal digits (`YYMMDDHHMM`).
pub fn validate_note_id(id: &str) -> (r: Result<(), InvalidNoteId>)
    ensures
        r is Ok <==> note_id_spec(id@),
        r matches Err(e) ==> e.id@ == id@,
{
    if is_note_id(id) {
        Ok(())
    } else {
        Err(InvalidNoteId { id: id.to_owned() })
    }
}

// ---------------------------------------------------------------------------
// Metadata overrides
// ---------------------------------------------------------------------------

/// The map of overrides: each key with the value of its last entry.
pub open spec fn overrides_map(s: Seq<(Seq<char>, TomlModel)>) -> Map<Seq<char>, TomlModel>
    decreases s.len(),
{
    if s.len() == 0 {
        Map::empty()
    } else {
        overrides_map(s.drop_last()).insert(s.last().0, s.last().1)
    }
}

/// Metadata key → TOML value to override when building a new note; a
/// later entry for a key replaces an earlier one.
#[derive(Debug)]
pub struct MetaOverrides {
    pub entries: Vec<(String, TomlValue)>,
}

impl View for MetaOverrides {
    type V = Map<Seq<char>, TomlModel>;

    open spec fn view(&self) -> Map<Seq<char>, TomlModel> {
        overrides_map(entry_models(self.entries@))
    }
}

impl MetaOverrides {
    pub fn new() -> (r: Self)
        ensures
            r@ == Map::<Seq<char>, TomlModel>::empty(),
    {
        MetaOverrides { entries: Vec::new() }
    }

    /// Sets `key` to `value`.
    pub fn insert(&mut self, key: String, value: TomlValue)
        ensures
            final(self)@ == old(self)@.insert(key@, value@),
    {
        let ghost before = self.entries@;
        self.entries.push((key, value));
        assert(self.entries@.subrange(0, self.entries@.len() - 1) =~= before);
        assert(entry_models(self.entries@).drop_last() =~= entry_models(before));
    }

    /// The value of `key`.
    pub fn get(&self, key: &str) -> (r: Option<&TomlValue>)
        ensures
            match r {
                Some(v) => self@.contains_key(key@) && v@ == self@[key@],
                None => !self@.contains_key(key@),
            },
    {
        let ghost ms = entry_models(self.entries@);
        proof {
            crate::toml_value::lemma_entry_models(self.entries@);
        }
        let mut found: Option<usize> = None;
        let mut k: usize = 0;
        while k < self.entries.len()
            invariant
                k <= self.entries.len(),
                ms == entry_models(self.entries@),
                ms.len() == self.entries.len(),
                forall|i: int| 0 <= i < self.entries.len() ==> #[trigger] ms[i] == (self.entries@[i].0@, toml_model(self.entries@[i].1)),
                match found {
                    Some(j) => j < k && overrides_map(ms.take(k as int)).contains_key(key@) && overrides_map(ms.take(k as int))[key@]
                        == toml_model(self.entries@[j as int].1),
                    None => !overrides_map(ms.take(k as int)).contains_key(key@),
                },
            decreases self.entries.len() - k,
        {
            assert(ms.take(k + 1).drop_last() =~= ms.take(k as int));
            assert(ms.take(k + 1).last() == ms[k as int]);
            if crate::text::str_eq(self.entries[k].0.as_str(), key) {
                found = Some(k);
            }
            k += 1;
        }
        assert(ms.take(self.entries.len() as int) =~= ms);
        match found {
            Some(j) => Some(&self.entries[j].1),
            None => None,
        }
    }
}

// ---------------------------------------------------------------------------
// The metadata block of a new note
// ---------------------------------------------------------------------------

pub open spec fn quote(s: Seq<char>) -> Seq<char> {
    seq!['"'] + s + seq!['"']
}

pub open spec fn escape_char(c: char) -> Seq<char> {
    if c == '\\' {
        seq!['\\', '\\']
    } else if c == '"' {
        seq!['\\', '"']
    } else {
        seq![c]
    }
}

/// `s` with each backslash and double quote escaped by a backslash.
pub open spec fn escape(s: Seq<char>) -> Seq<char>
    decreases s.len(),
{
    if s.len() == 0 {
        seq![]
    } else {
        escape(s.drop_last()) + escape_char(s.last())
    }
}

pub open spec fn bool_text(b: bool) -> Seq<char> {
    if b {
        "true"@
    } else {
        "false"@
    }
}

/// An array item: a string quoted as it is, anything else in TOML.
pub open spec fn item_text(v: TomlModel) -> Seq<char> {
    match v {
        TomlModel::String(s) => quote(s),
        _ => toml_text(v),
    }
}

pub open spec fn array_text(items: Seq<TomlModel>) -> Seq<char> {
    "["@ + join_sep(items.map_values(|v: TomlModel| item_text(v)), ", "@) + "]"@
}

/// A value written inline: strings escaped and quoted, booleans, arrays;
/// anything else as an empty string.
pub open spec fn inline_value(v: TomlModel) -> Seq<char> {
    match v {
        TomlModel::String(s) => quote(escape(s)),
        TomlModel::Boolean(b) => bool_text(b),
        TomlModel::Array(items) => array_text(items),
        _ => quote(seq![]),
    }
}

pub open spec fn str_field(ov: Map<Seq<char>, TomlModel>, key: Seq<char>, default: Seq<char>) -> Seq<char> {
    if ov.contains_key(key) && ov[key] is String {
        quote(escape(ov[key]->String_0))
    } else {
        quote(default)
    }
}

pub open spec fn bool_field(ov: Map<Seq<char>, TomlModel>, key: Seq<char>, default: bool) -> Seq<char> {
    if ov.contains_key(key) && ov[key] is Boolean {
        bool_text(ov[key]->Boolean_0)
    } else {
        bool_text(default)
    }
}

pub open spec fn array_field(ov: Map<Seq<char>, TomlModel>, key: Seq<char>) -> Seq<char> {
    if ov.contains_key(key) && ov[key] is Array {
        array_text(ov[key]->Array_0)
    } else {
        "[]"@
    }
}

/// The block's opening lines with the core fields.
pub open spec fn core_lines(ov: Map<Seq<char>, TomlModel>) -> Seq<Seq<char>> {
    seq![
        "#let zk-metadata = toml(bytes("@,
        "  ```toml"@,
        "  schema-version = 1"@,
        "  aliases = "@ + array_field(ov, "aliases"@),
        "  abstract = "@ + str_field(ov, "abstract"@, seq![]),
        "  keywords = "@ + array_field(ov, "keywords"@),
        "  generated = "@ + bool_field(ov, "generated"@, true),
        "  checklist-status = "@ + str_field(ov, "checklist-status"@, "none"@),
        "  relation = "@ + str_field(ov, "relation"@, "active"@),
        "  relation-target = "@ + array_field(ov, "relation-target"@),
    ]
}

/// The lines of the `user.*` fields among `fields[..n]`: each override, or
/// else the field's default.
pub open spec fn user_lines_upto(fields: Seq<MetadataFieldConfig>, ov: Map<Seq<char>, TomlModel>, n: int) -> Seq<Seq<char>>
    decreases n,
{
    if n <= 0 {
        seq![]
    } else {
        let prev = user_lines_upto(fields, ov, n - 1);
        let f = fields[n - 1];
        if starts_with(f.path@, "user."@) {
            let v = if ov.contains_key(f.path@) {
                ov[f.path@]
            } else {
                f.default@
            };
            prev.push("  "@ + f.path@.skip(5) + " = "@ + inline_value(v))
        } else {
            prev
        }
    }
}

/// The inline metadata block of a new note.
pub open spec fn metadata_block(fields: Seq<MetadataFieldConfig>, ov: Map<Seq<char>, TomlModel>) -> Seq<char> {
    let user = user_lines_upto(fields, ov, fields.len() as int);
    let middle = if user.len() > 0 {
        seq![seq![], "  [user]"@] + user
    } else {
        seq![]
    };
    join_lines(core_lines(ov) + middle + seq!["  ```.text,"@, "))"@])
}

fn push_escaped(out: &mut Vec<char>, s: &str)
    ensures
        final(out)@ == old(out)@ + escape(s@),
{
    let cs = chars_of(s);
    let ghost start = out@;
    let mut k: usize = 0;
    while k < cs.len()
        invariant
            k <= cs.len(),
            cs@ == s@,
            out@ == start + escape(cs@.take(k as int)),
        decreases cs.len() - k,
    {
        let c = cs[k];
        assert(cs@.take(k + 1).drop_last() =~= cs@.take(k as int));
        if c == '\\' {
            out.push('\\');
            out.push('\\');
        } else if c == '"' {
            out.push('\\');
            out.push('"');
        } else {
            out.push(c);
        }
        assert(out@ =~= start + escape(cs@.take(k + 1)));
        k += 1;
    }
    assert(cs@.take(cs.len() as int) =~= cs@);
}

fn quoted_escaped(s: &str) -> (r: Vec<char>)
    ensures
        r@ == quote(escape(s@)),
{
    let mut out: Vec<char> = Vec::new();
    out.push('"');
    push_escaped(&mut out, s);
    out.push('"');
    assert(out@ =~= quote(escape(s@)));
    out
}

fn quoted(s: &str) -> (r: Vec<char>)
    ensures
        r@ == quote(s@),
{
    let mut out: Vec<char> = Vec::new();
    out.push('"');
    push_str(&mut out, s);
    out.push('"');
    assert(out@ =~= quote(s@));
    out
}

pub(crate) fn bool_chars(b: bool) -> (r: Vec<char>)
    ensures
        r@ == bool_text(b),
{
    if b {
        chars_of("true")
    } else {
        chars_of("false")
    }
}

fn array_chars(items: &Vec<TomlValue>) -> (r: Vec<char>)
    ensures
        r@ == array_text(toml_models(items@)),
{
    proof {
        lemma_toml_models(items@);
    }
    let ghost ms = toml_models(items@);
    let mut parts: Vec<Vec<char>> = Vec::new();
    let mut k: usize = 0;
    while k < items.len()
        invariant
            k <= items.len(),
            ms == toml_models(items@),
            ms.len() == items.len(),
            forall|i: int| 0 <= i < items.len() ==> #[trigger] ms[i] == toml_model(items@[i]),
            views(parts@) == ms.map_values(|v: TomlModel| item_text(v)).take(k as int),
        decreases items.len() - k,
    {
        let p = match &items[k] {
            TomlValue::String(s) => quoted(s.as_str()),
            other => chars_of(toml_display(other).as_str()),
        };
        assert(ms[k as int] == items@[k as int]@);
        let ghost before = views(parts@);
        parts.push(p);
        assert(views(parts@) =~= before.push(item_text(ms[k as int])));
        assert(views(parts@) =~= ms.map_values(|v: TomlModel| item_text(v)).take(k + 1));
        k += 1;
    }
    assert(ms.map_values(|v: TomlModel| item_text(v)).take(items.len() as int) =~= ms.map_values(|v: TomlModel| item_text(v)));
    let joined = join_parts(&parts, ", ");
    let mut out = chars_of("[");
    push_chars(&mut out, &joined);
    push_str(&mut out, "]");
    out
}

/// A value written inline (`inline_value`).
pub fn toml_default_inline(v: &TomlValue) -> (r: String)
    ensures
        r@ == inline_value(v@),
{
    let cs = inline_chars(v);
    string_from_chars(&cs)
}

fn inline_chars(v: &TomlValue) -> (r: Vec<char>)
    ensures
        r@ == inline_value(v@),
{
    match v {
        TomlValue::String(s) => quoted_escaped(s.as_str()),
        TomlValue::Boolean(b) => bool_chars(*b),
        TomlValue::Array(items) => array_chars(items),
        _ => {
            proof {
                reveal_strlit("");
            }
            quoted("")
        },
    }
}

fn field_line(prefix: &str, value: Vec<char>) -> (r: Vec<char>)
    ensures
        r@ == prefix@ + value@,
{
    let mut out = chars_of(prefix);
    push_chars(&mut out, &value);
    out
}

fn str_field_chars(ov: &MetaOverrides, key: &str, default: &str) -> (r: Vec<char>)
    ensures
        r@ == str_field(ov@, key@, default@),
{
    match ov.get(key) {
        Some(TomlValue::String(s)) => quoted_escaped(s.as_str()),
        _ => quoted(default),
    }
}

fn array_field_chars(ov: &MetaOverrides, key: &str) -> (r: Vec<char>)
    ensures
        r@ == array_field(ov@, key@),
{
    match ov.get(key) {
        Some(TomlValue::Array(items)) => array_chars(items),
        _ => chars_of("[]"),
    }
}

/// Builds the inline metadata block of a new note: the core fields with
/// their defaults or overrides, then a `[user]` table with the config's
/// `user.*` fields when there are any.
pub fn build_metadata_block(fields: &[MetadataFieldConfig], overrides: &MetaOverrides) -> (r: String)
    ensures
        r@ == metadata_block(fields@, overrides@),
{
    let ghost ov = overrides@;
    let mut lines: Vec<Vec<char>> = Vec::new();
    lines.push(chars_of("#let zk-metadata = toml(bytes("));
    lines.push(chars_of("  ```toml"));
    lines.push(chars_of("  schema-version = 1"));
    lines.push(field_line("  aliases = ", array_field_chars(overrides, "aliases")));
    lines.push(field_line("  abstract = ", str_field_chars(overrides, "abstract", "")));
    lines.push(field_line("  keywords = ", array_field_chars(overrides, "keywords")));
    let generated = match overrides.get("generated") {
        Some(TomlValue::Boolean(b)) => bool_chars(*b),
        _ => bool_chars(true),
    };
    lines.push(field_line("  generated = ", generated));
    lines.push(field_line("  checklist-status = ", str_field_chars(overrides, "checklist-status", "none")));
    lines.push(field_line("  relation = ", str_field_chars(overrides, "relation", "active")));
    lines.push(field_line("  relation-target = ", array_field_chars(overrides, "relation-target")));
    proof {
        reveal_strlit("");
    }
    assert(views(lines@) =~= core_lines(ov));
    let mut user: Vec<Vec<char>> = Vec::new();
    let mut k: usize = 0;
    while k < fields.len()
        invariant
            k <= fields.len(),
            ov == overrides@,
            views(user@) == user_lines_upto(fields@, ov, k as int),
        decreases fields.len() - k,
    {
        let f = &fields[k];
        let fc = chars_of(f.path.as_str());
        if crate::parser::starts_with_at(&fc, 0, &['u', 's', 'e', 'r', '.']) {
            proof {
                reveal_strlit("user.");
                assert(fc@.skip(0) =~= fc@);
                assert(seq!['u', 's', 'e', 'r', '.'] =~= "user."@);
            }
            let val = match overrides.get(f.path.as_str()) {
                Some(v) => inline_chars(v),
                None => inline_chars(&f.default),
            };
            let mut line = chars_of("  ");
            let mut j: usize = 5;
            while j < fc.len()
                invariant
                    5 <= j <= fc.len(),
                    line@ == "  "@ + fc@.subrange(5, j as int),
                decreases fc.len() - j,
            {
                line.push(fc[j]);
                assert(fc@.subrange(5, j + 1) =~= fc@.subrange(5, j as int).push(fc@[j as int]));
                j += 1;
            }
            assert(fc@.subrange(5, fc.len() as int) =~= fc@.skip(5));
            push_str(&mut line, " = ");
            push_chars(&mut line, &val);
            let ghost before = views(user@);
            user.push(line);
            assert(views(user@) =~= before.push(views(user@).last()));
        } else {
            proof {
                reveal_strlit("user.");
                assert(fc@.skip(0) =~= fc@);
                assert(seq!['u', 's', 'e', 'r', '.'] =~= "user."@);
            }
        }
        k += 1;
    }
    let ghost core = views(lines@);
    if user.len() > 0 {
        lines.push(Vec::new());
        lines.push(chars_of("  [user]"));
        let mut j: usize = 0;
        while j < user.len()
            invariant
                j <= user.len(),
                views(lines@) == core + seq![Seq::<char>::empty(), "  [user]"@] + views(user@).take(j as int),
            decreases user.len() - j,
        {
            let ghost before = views(lines@);
            lines.push(user[j].clone());
            assert(views(lines@) =~= before.push(user@[j as int]@));
            assert(views(user@).take(j + 1) =~= views(user@).take(j as int).push(user@[j as int]@));
            j += 1;
        }
        assert(views(user@).take(user.len() as int) =~= views(user@));
    }
    let ghost mid = views(lines@);
    proof {
        let u = user_lines_upto(fields@, ov, fields.len() as int);
        let middle = if u.len() > 0 {
            seq![seq![], "  [user]"@] + u
        } else {
            seq![]
        };
        assert(mid =~= core_lines(ov) + middle);
    }
    lines.push(chars_of("  ```.text,"));
    lines.push(chars_of("))"));
    assert(views(lines@) =~= mid + seq!["  ```.text,"@, "))"@]);
    crate::text::join_with_newlines(&lines, false)
}

// ---------------------------------------------------------------------------
// Parsing overrides
// ---------------------------------------------------------------------------

/// The first entry of `t` with key `key`.
pub open spec fn entry_value(t: Seq<(Seq<char>, TomlModel)>, key: Seq<char>, k: int) -> Option<TomlModel>
    decreases t.len() - k,
{
    if k < 0 || k >= t.len() {
        None
    } else if t[k].0 == key {
        Some(t[k].1)
    } else {
        entry_value(t, key, k + 1)
    }
}

/// A value given as a TOML literal: what the `toml` crate reads for `s`
/// as the value of a key, or else `s` itself as a string.
pub open spec fn toml_literal(s: Seq<char>) -> TomlModel {
    match toml_document("_x_ = "@ + s) {
        Some(t) => match entry_value(t, "_x_"@, 0) {
            Some(v) => v,
            None => TomlModel::String(s),
        },
        None => TomlModel::String(s),
    }
}

/// Parses `s` as a TOML value literal (`toml_literal`).
pub fn parse_toml_value_str(s: &str) -> (r: TomlValue)
    ensures
        r@ == toml_literal(s@),
{
    let mut probe = chars_of("_x_ = ");
    push_str(&mut probe, s);
    let text = string_from_chars(&probe);
    assert(text@ == "_x_ = "@ + s@);
    match parse_toml_document(text.as_str()) {
        Some(t) => {
            assert(toml_document("_x_ = "@ + s@) == Some(entry_models(t@)));
            let ghost tm = entry_models(t@);
            proof {
                crate::toml_value::lemma_entry_models(t@);
            }
            let mut k: usize = 0;
            while k < t.len()
                invariant
                    k <= t.len(),
                    tm == entry_models(t@),
                    tm.len() == t.len(),
                    forall|i: int| 0 <= i < t.len() ==> #[trigger] tm[i] == (t@[i].0@, toml_model(t@[i].1)),
                    entry_value(tm, "_x_"@, 0) == entry_value(tm, "_x_"@, k as int),
                    toml_document("_x_ = "@ + s@) == Some(tm),
                decreases t.len() - k,
            {
                if crate::text::str_eq(t[k].0.as_str(), "_x_") {
                    assert(tm[k as int].0 == "_x_"@);
                    assert(entry_value(tm, "_x_"@, k as int) == Some(toml_model(t@[k as int].1)));
                    let r = copy_toml(&t[k].1);
                    return r;
                }
                k += 1;
            }
            TomlValue::String(s.to_owned())
        },
        None => TomlValue::String(s.to_owned()),
    }
}

/// The core metadata keys that may be overridden.
pub open spec fn core_overridable(key: Seq<char>) -> bool {
    key == "checklist-status"@ || key == "relation"@ || key == "generated"@ || key == "aliases"@ || key == "keywords"@
        || key == "abstract"@ || key == "relation-target"@
}

fn is_core_overridable(key: &str) -> (r: bool)
    ensures
        r == core_overridable(key@),
{
    crate::text::str_eq(key, "checklist-status") || crate::text::str_eq(key, "relation") || crate::text::str_eq(key, "generated")
        || crate::text::str_eq(key, "aliases") || crate::text::str_eq(key, "keywords") || crate::text::str_eq(key, "abstract")
        || crate::text::str_eq(key, "relation-target")
}

/// A rejected override.
#[derive(Debug)]
pub enum MetaError {
    /// An argument without `=`.
    MissingEquals { item: String },
    /// A `user.*` key that the config does not declare.
    UndeclaredUserKey { key: String },
    /// A key that is neither a core field nor `user.*`.
    UnknownKey { key: String },
}

pub enum MetaErrorModel {
    MissingEquals(Seq<char>),
    UndeclaredUserKey(Seq<char>),
    UnknownKey(Seq<char>),
}

impl View for MetaError {
    type V = MetaErrorModel;

    open spec fn view(&self) -> MetaErrorModel {
        match self {
            MetaError::MissingEquals { item } => MetaErrorModel::MissingEquals(item@),
            MetaError::UndeclaredUserKey { key } => MetaErrorModel::UndeclaredUserKey(key@),
            MetaError::UnknownKey { key } => MetaErrorModel::UnknownKey(key@),
        }
    }
}

/// A string as Rust's `Debug` writes it: quoted, with escapes.
pub uninterp spec fn debug_str(s: Seq<char>) -> Seq<char>;

/// `format!("{:?}", s)`: std's `Debug` for `str`, which quotes and escapes.
#[verifier::external_body]
pub(crate) fn debug_quoted(s: &str) -> (r: String)
    ensures
        r@ == debug_str(s@),
{
    format!("{:?}", s)
}

/// The core fields that may be overridden, as the error lists them.
pub open spec fn core_key_list() -> Seq<char> {
    "checklist-status, relation, generated, aliases, keywords, abstract, relation-target"@
}

pub open spec fn meta_error_message(e: MetaErrorModel) -> Seq<char> {
    match e {
        MetaErrorModel::MissingEquals(item) => "invalid --meta argument "@ + debug_str(item) + ": expected KEY=VALUE format"@,
        MetaErrorModel::UndeclaredUserKey(key) => "--meta key "@ + debug_str(key)
            + " is not declared in config; add [[metadata.field]] path = "@ + debug_str(key) + " to zk-lsp.toml first"@,
        MetaErrorModel::UnknownKey(key) => "--meta key "@ + debug_str(key) + " is not a valid metadata field; valid core fields: "@
            + core_key_list(),
    }
}

impl MetaError {
    /// The message shown for the error.
    pub fn message(&self) -> (r: String)
        ensures
            r@ == meta_error_message(self@),
    {
        let mut out: Vec<char> = Vec::new();
        match self {
            MetaError::MissingEquals { item } => {
                push_str(&mut out, "invalid --meta argument ");
                push_str(&mut out, debug_quoted(item.as_str()).as_str());
                push_str(&mut out, ": expected KEY=VALUE format");
            },
            MetaError::UndeclaredUserKey { key } => {
                let q = debug_quoted(key.as_str());
                push_str(&mut out, "--meta key ");
                push_str(&mut out, q.as_str());
                push_str(&mut out, " is not declared in config; add [[metadata.field]] path = ");
                push_str(&mut out, q.as_str());
                push_str(&mut out, " to zk-lsp.toml first");
            },
            MetaError::UnknownKey { key } => {
                push_str(&mut out, "--meta key ");
                push_str(&mut out, debug_quoted(key.as_str()).as_str());
                push_str(&mut out, " is not a valid metadata field; valid core fields: ");
                push_str(&mut out, "checklist-status, relation, generated, aliases, keywords, abstract, relation-target");
            },
        }
        string_from_chars(&out)
    }
}

/// The error for a key, if any: a `user.*` key must be declared among
/// `paths`; any other key must be a core field that may be overridden.
pub open spec fn key_error(key: Seq<char>, paths: Seq<Seq<char>>) -> Option<MetaErrorModel> {
    if starts_with(key, "user."@) {
        if paths.contains(key) {
            None
        } else {
            Some(MetaErrorModel::UndeclaredUserKey(key))
        }
    } else if core_overridable(key) {
        None
    } else {
        Some(MetaErrorModel::UnknownKey(key))
    }
}

/// `KEY=VALUE` split at the first `=`.
pub open spec fn split_key_value(s: Seq<char>) -> Option<(Seq<char>, Seq<char>)> {
    match first_index(s, '=', 0) {
        Some(i) => Some((s.take(i), s.skip(i + 1))),
        None => None,
    }
}

/// The overrides of `meta[..n]` in order, or the first error.
pub open spec fn overrides_upto(meta: Seq<Seq<char>>, paths: Seq<Seq<char>>, n: int) -> Result<
    Seq<(Seq<char>, TomlModel)>,
    MetaErrorModel,
>
    decreases n,
{
    if n <= 0 {
        Ok(seq![])
    } else {
        match overrides_upto(meta, paths, n - 1) {
            Err(e) => Err(e),
            Ok(es) => match split_key_value(meta[n - 1]) {
                None => Err(MetaErrorModel::MissingEquals(meta[n - 1])),
                Some((k, v)) => match key_error(k, paths) {
                    Some(e) => Err(e),
                    None => Ok(es.push((k, toml_literal(v)))),
                },
            },
        }
    }
}

proof fn lemma_overrides_err(meta: Seq<Seq<char>>, paths: Seq<Seq<char>>, k: int, n: int)
    requires
        0 <= k <= n,
        overrides_upto(meta, paths, k) is Err,
    ensures
        overrides_upto(meta, paths, n) == overrides_upto(meta, paths, k),
    decreases n - k,
{
    if n > k {
        lemma_overrides_err(meta, paths, k, n - 1);
    }
}

pub open spec fn field_paths(fields: Seq<MetadataFieldConfig>) -> Seq<Seq<char>> {
    fields.map_values(|f: MetadataFieldConfig| f.path@)
}

pub open spec fn string_views(v: Seq<String>) -> Seq<Seq<char>> {
    v.map_values(|s: String| s@)
}

fn declared(fields: &[MetadataFieldConfig], key: &str) -> (r: bool)
    ensures
        r == field_paths(fields@).contains(key@),
{
    let ghost ps = field_paths(fields@);
    let mut k: usize = 0;
    while k < fields.len()
        invariant
            k <= fields.len(),
            ps == field_paths(fields@),
            forall|q: int| 0 <= q < k ==> ps[q] != key@,
        decreases fields.len() - k,
    {
        if crate::text::str_eq(fields[k].path.as_str(), key) {
            assert(ps[k as int] == key@);
            return true;
        }
        k += 1;
    }
    false
}

/// Parses `KEY=VALUE` arguments into overrides. A key is a core field or a
/// `user.*` field that `fields` declares; the value is read as a TOML
/// literal, a bare word giving a string.
pub fn parse_meta_overrides(meta: &[String], fields: &[MetadataFieldConfig]) -> (r: Result<MetaOverrides, MetaError>)
    ensures
        match r {
            Ok(o) => overrides_upto(string_views(meta@), field_paths(fields@), meta.len() as int) matches Ok(es)
                && o@ == overrides_map(es),
            Err(e) => overrides_upto(string_views(meta@), field_paths(fields@), meta.len() as int) == Err::<
                Seq<(Seq<char>, TomlModel)>,
                MetaErrorModel,
            >(e@),
        },
{
    let ghost ms = string_views(meta@);
    let ghost ps = field_paths(fields@);
    let mut out = MetaOverrides::new();
    let mut k: usize = 0;
    while k < meta.len()
        invariant
            k <= meta.len(),
            ms == string_views(meta@),
            ps == field_paths(fields@),
            overrides_upto(ms, ps, k as int) matches Ok(es) && out@ == overrides_map(es),
        decreases meta.len() - k,
    {
        let item = &meta[k];
        assert(ms[k as int] == item@);
        let cs = chars_of(item.as_str());
        let mut i: usize = 0;
        proof {
            crate::reconcile::observe::lemma_first_index(cs@, '=', 0);
        }
        while i < cs.len() && cs[i] != '='
            invariant
                i <= cs.len(),
                forall|j: int| 0 <= j < i ==> cs@[j] != '=',
            decreases cs.len() - i,
        {
            i += 1;
        }
        if i == cs.len() {
            assert(first_index(cs@, '=', 0) is None);
            let e = MetaError::MissingEquals { item: item.clone() };
            proof {
                lemma_overrides_err(ms, ps, k + 1, meta.len() as int);
            }
            return Err(e);
        }
        assert(first_index(cs@, '=', 0) == Some(i as int));
        let key = crate::text::string_from_range(&cs, 0, i);
        let val = crate::text::string_from_range(&cs, i + 1, cs.len());
        assert(key@ =~= cs@.take(i as int));
        assert(val@ =~= cs@.skip(i + 1));
        let kc = chars_of(key.as_str());
        let is_user = crate::parser::starts_with_at(&kc, 0, &['u', 's', 'e', 'r', '.']);
        proof {
            reveal_strlit("user.");
            assert(kc@.skip(0) =~= kc@);
            assert(seq!['u', 's', 'e', 'r', '.'] =~= "user."@);
        }
        if is_user {
            if !declared(fields, key.as_str()) {
                proof {
                    lemma_overrides_err(ms, ps, k + 1, meta.len() as int);
                }
                return Err(MetaError::UndeclaredUserKey { key });
            }
        } else if !is_core_overridable(key.as_str()) {
            proof {
                lemma_overrides_err(ms, ps, k + 1, meta.len() as int);
            }
            return Err(MetaError::UnknownKey { key });
        }
        let v = parse_toml_value_str(val.as_str());
        let ghost es = overrides_upto(ms, ps, k as int)->Ok_0;
        out.insert(key, v);
        assert(overrides_map(es.push((key@, v@))) == overrides_map(es).insert(key@, v@)) by {
            assert(es.push((key@, v@)).drop_last() =~= es);
        }
        k += 1;
    }
    Ok(out)
}


// ---------------------------------------------------------------------------
// JSON creation input
// ---------------------------------------------------------------------------

/// A JSON value as a TOML value: `null` becomes the empty string, objects
/// become tables, and an unsigned number beyond `i64` a float.
pub open spec fn json_to_toml(v: JsonModel) -> TomlModel
    decreases v,
{
    match v {
        JsonModel::Null => TomlModel::String(seq![]),
        JsonModel::Bool(b) => TomlModel::Boolean(b),
        JsonModel::Int(n) => TomlModel::Integer(n),
        JsonModel::UInt(n) => if n <= i64::MAX as u64 {
            TomlModel::Integer(n as i64)
        } else {
            TomlModel::Float(crate::cycle::dec(n as nat))
        },
        JsonModel::Float(t) => TomlModel::Float(t),
        JsonModel::Str(s) => TomlModel::String(s),
        JsonModel::Array(items) => TomlModel::Array(json_items_to_toml(items)),
        JsonModel::Object(ms) => TomlModel::Table(json_members_to_toml(ms)),
    }
}

pub open spec fn json_items_to_toml(s: Seq<JsonModel>) -> Seq<TomlModel>
    decreases s,
{
    if s.len() == 0 {
        seq![]
    } else {
        json_items_to_toml(s.subrange(0, s.len() - 1)).push(json_to_toml(s[s.len() - 1]))
    }
}

pub open spec fn json_members_to_toml(s: Seq<(Seq<char>, JsonModel)>) -> Seq<(Seq<char>, TomlModel)>
    decreases s,
{
    if s.len() == 0 {
        seq![]
    } else {
        json_members_to_toml(s.subrange(0, s.len() - 1)).push((s[s.len() - 1].0, json_to_toml(s[s.len() - 1].1)))
    }
}

/// Converts a JSON value to a TOML value (`json_to_toml`).
pub fn json_value_to_toml(v: &JsonValue) -> (r: TomlValue)
    ensures
        r@ == json_to_toml(v@),
    decreases v,
{
    match v {
        JsonValue::Null => {
            let r = TomlValue::String(String::new());
            proof {
                reveal_strlit("");
            }
            assert(r@ == TomlModel::String(seq![]));
            r
        },
        JsonValue::Bool(b) => TomlValue::Boolean(*b),
        JsonValue::Int(n) => TomlValue::Integer(*n),
        JsonValue::UInt(n) => if *n <= i64::MAX as u64 {
            TomlValue::Integer(*n as i64)
        } else {
            TomlValue::Float(string_from_chars(&crate::cycle::dec_exec(*n)))
        },
        JsonValue::Float(t) => TomlValue::Float(t.clone()),
        JsonValue::Str(t) => TomlValue::String(t.clone()),
        JsonValue::Array(items) => {
            proof {
                lemma_json_models(items@);
            }
            let ghost jm = json_models(items@);
            let mut out: Vec<TomlValue> = Vec::new();
            let mut k: usize = 0;
            assert(toml_models(out@) =~= json_items_to_toml(jm.subrange(0, 0)));
            while k < items.len()
                invariant
                    k <= items.len(),
                    jm == json_models(items@),
                    jm.len() == items.len(),
                    forall|i: int| 0 <= i < items.len() ==> #[trigger] jm[i] == json_model(items@[i]),
                    toml_models(out@) == json_items_to_toml(jm.subrange(0, k as int)),
                    *v == JsonValue::Array(*items),
                decreases items.len() - k,
            {
                proof {
                    assert(decreases_to!(*v => (*v)->Array_0));
                    assert(decreases_to!((*v)->Array_0 => (*v)->Array_0@));
                    assert(decreases_to!(items@ => items@[k as int]));
                    assert(decreases_to!(*v => items@[k as int]));
                }
                let c = json_value_to_toml(&items[k]);
                let ghost before = out@;
                out.push(c);
                proof {
                    assert(out@.subrange(0, out@.len() - 1) =~= before);
                    assert(jm.subrange(0, k + 1).subrange(0, k as int) =~= jm.subrange(0, k as int));
                }
                k += 1;
            }
            assert(jm.subrange(0, items.len() as int) =~= jm);
            TomlValue::Array(out)
        },
        JsonValue::Object(ms) => {
            proof {
                lemma_member_models(ms@);
            }
            let ghost mm = member_models(ms@);
            let mut out: Vec<(String, TomlValue)> = Vec::new();
            let mut k: usize = 0;
            assert(entry_models(out@) =~= json_members_to_toml(mm.subrange(0, 0)));
            while k < ms.len()
                invariant
                    k <= ms.len(),
                    mm == member_models(ms@),
                    mm.len() == ms.len(),
                    forall|i: int| 0 <= i < ms.len() ==> #[trigger] mm[i] == (ms@[i].0@, json_model(ms@[i].1)),
                    entry_models(out@) == json_members_to_toml(mm.subrange(0, k as int)),
                    *v == JsonValue::Object(*ms),
                decreases ms.len() - k,
            {
                proof {
                    assert(decreases_to!(*v => (*v)->Object_0));
                    assert(decreases_to!((*v)->Object_0 => (*v)->Object_0@));
                    assert(decreases_to!(ms@ => ms@[k as int]));
                    assert(decreases_to!(ms@[k as int] => ms@[k as int].1));
                    assert(decreases_to!(*v => ms@[k as int].1));
                }
                let c = json_value_to_toml(&ms[k].1);
                let e = (ms[k].0.clone(), c);
                let ghost before = out@;
                out.push(e);
                proof {
                    assert(out@.subrange(0, out@.len() - 1) =~= before);
                    assert(mm.subrange(0, k + 1).subrange(0, k as int) =~= mm.subrange(0, k as int));
                }
                k += 1;
            }
            assert(mm.subrange(0, ms.len() as int) =~= mm);
            TomlValue::Table(out)
        },
    }
}

/// A rejected `--json` creation input.
#[derive(Debug, PartialEq, Eq)]
pub enum JsonInputError {
    /// The text is no JSON object.
    NotAnObject,
    /// `metadata` is there but no object.
    MetadataNotObject,
    /// A `user.*` key that the config does not declare.
    UndeclaredUserKey { key: String },
    /// A key that is neither a core field nor `user.*`.
    UnknownKey { key: String },
}

pub enum JsonInputErrorModel {
    NotAnObject,
    MetadataNotObject,
    UndeclaredUserKey(Seq<char>),
    UnknownKey(Seq<char>),
}

impl View for JsonInputError {
    type V = JsonInputErrorModel;

    open spec fn view(&self) -> JsonInputErrorModel {
        match self {
            JsonInputError::NotAnObject => JsonInputErrorModel::NotAnObject,
            JsonInputError::MetadataNotObject => JsonInputErrorModel::MetadataNotObject,
            JsonInputError::UndeclaredUserKey { key } => JsonInputErrorModel::UndeclaredUserKey(key@),
            JsonInputError::UnknownKey { key } => JsonInputErrorModel::UnknownKey(key@),
        }
    }
}

pub open spec fn json_input_message(e: JsonInputErrorModel) -> Seq<char> {
    match e {
        JsonInputErrorModel::NotAnObject => "--json: expected a JSON object"@,
        JsonInputErrorModel::MetadataNotObject => "--json: \"metadata\" must be a JSON object"@,
        JsonInputErrorModel::UndeclaredUserKey(key) => "--json metadata key "@ + debug_str(key)
            + " is not declared in config; add [[metadata.field]] path = "@ + debug_str(key) + " to zk-lsp.toml first"@,
        JsonInputErrorModel::UnknownKey(key) => "--json metadata key "@ + debug_str(key)
            + " is not a valid metadata field; valid core fields: "@ + core_key_list(),
    }
}

impl JsonInputError {
    /// The message shown for the error.
    pub fn message(&self) -> (r: String)
        ensures
            r@ == json_input_message(self@),
    {
        let mut out: Vec<char> = Vec::new();
        match self {
            JsonInputError::NotAnObject => push_str(&mut out, "--json: expected a JSON object"),
            JsonInputError::MetadataNotObject => push_str(&mut out, "--json: \"metadata\" must be a JSON object"),
            JsonInputError::UndeclaredUserKey { key } => {
                let q = debug_quoted(key.as_str());
                push_str(&mut out, "--json metadata key ");
                push_str(&mut out, q.as_str());
                push_str(&mut out, " is not declared in config; add [[metadata.field]] path = ");
                push_str(&mut out, q.as_str());
                push_str(&mut out, " to zk-lsp.toml first");
            },
            JsonInputError::UnknownKey { key } => {
                push_str(&mut out, "--json metadata key ");
                push_str(&mut out, debug_quoted(key.as_str()).as_str());
                push_str(&mut out, " is not a valid metadata field; valid core fields: ");
                push_str(&mut out, "checklist-status, relation, generated, aliases, keywords, abstract, relation-target");
            },
        }
        string_from_chars(&out)
    }
}

/// The problem of a `--json` metadata key, if any (`key_error`).
pub open spec fn json_key_error(key: Seq<char>, paths: Seq<Seq<char>>) -> Option<JsonInputErrorModel> {
    match key_error(key, paths) {
        Some(MetaErrorModel::UndeclaredUserKey(k)) => Some(JsonInputErrorModel::UndeclaredUserKey(k)),
        Some(MetaErrorModel::UnknownKey(k)) => Some(JsonInputErrorModel::UnknownKey(k)),
        _ => None,
    }
}

/// The overrides of the members `ms[..n]` of `metadata`, in order; the
/// first bad key stops them.
pub open spec fn json_overrides_upto(ms: Seq<(Seq<char>, JsonModel)>, paths: Seq<Seq<char>>, n: int) -> Result<
    Seq<(Seq<char>, TomlModel)>,
    JsonInputErrorModel,
>
    decreases n,
{
    if n <= 0 {
        Ok(seq![])
    } else {
        match json_overrides_upto(ms, paths, n - 1) {
            Err(e) => Err(e),
            Ok(es) => match json_key_error(ms[n - 1].0, paths) {
                Some(e) => Err(e),
                None => Ok(es.push((ms[n - 1].0, json_to_toml(ms[n - 1].1)))),
            },
        }
    }
}

/// The first member of `key`.
pub open spec fn member_value(ms: Seq<(Seq<char>, JsonModel)>, key: Seq<char>, k: int) -> Option<JsonModel>
    decreases ms.len() - k,
{
    if k < 0 || k >= ms.len() {
        None
    } else if ms[k].0 == key {
        Some(ms[k].1)
    } else {
        member_value(ms, key, k + 1)
    }
}

/// A string member.
pub open spec fn str_member(ms: Seq<(Seq<char>, JsonModel)>, key: Seq<char>) -> Option<Seq<char>> {
    match member_value(ms, key, 0) {
        Some(JsonModel::Str(s)) => Some(s),
        _ => None,
    }
}

/// What a `--json` creation input gives: the overrides of its `metadata`
/// object, its `title` and its `content`, where each is a string.
pub open spec fn creation_input(text: Seq<char>, paths: Seq<Seq<char>>) -> Result<
    (Map<Seq<char>, TomlModel>, Option<Seq<char>>, Option<Seq<char>>),
    JsonInputErrorModel,
> {
    match json_object_document(text) {
        None => Err(JsonInputErrorModel::NotAnObject),
        Some(doc) => {
            let title = str_member(doc, "title"@);
            let body = str_member(doc, "content"@);
            match member_value(doc, "metadata"@, 0) {
                None => Ok((Map::empty(), title, body)),
                Some(JsonModel::Object(ms)) => match json_overrides_upto(ms, paths, ms.len() as int) {
                    Ok(es) => Ok((overrides_map(es), title, body)),
                    Err(e) => Err(e),
                },
                Some(_) => Err(JsonInputErrorModel::MetadataNotObject),
            }
        },
    }
}

proof fn lemma_json_overrides_err(ms: Seq<(Seq<char>, JsonModel)>, paths: Seq<Seq<char>>, k: int, n: int)
    requires
        0 <= k <= n,
        json_overrides_upto(ms, paths, k) is Err,
    ensures
        json_overrides_upto(ms, paths, n) == json_overrides_upto(ms, paths, k),
    decreases n - k,
{
    if n > k {
        lemma_json_overrides_err(ms, paths, k, n - 1);
    }
}

fn member_lookup<'a>(ms: &'a Vec<(String, JsonValue)>, key: &str) -> (r: Option<&'a JsonValue>)
    ensures
        match r {
            Some(v) => member_value(member_models(ms@), key@, 0) == Some(v@),
            None => member_value(member_models(ms@), key@, 0) is None,
        },
{
    let ghost mm = member_models(ms@);
    proof {
        lemma_member_models(ms@);
    }
    let mut k: usize = 0;
    while k < ms.len()
        invariant
            k <= ms.len(),
            mm == member_models(ms@),
            mm.len() == ms.len(),
            forall|i: int| 0 <= i < ms.len() ==> #[trigger] mm[i] == (ms@[i].0@, json_model(ms@[i].1)),
            member_value(mm, key@, 0) == member_value(mm, key@, k as int),
        decreases ms.len() - k,
    {
        if crate::text::str_eq(ms[k].0.as_str(), key) {
            return Some(&ms[k].1);
        }
        k += 1;
    }
    None
}

fn str_member_exec(ms: &Vec<(String, JsonValue)>, key: &str) -> (r: Option<String>)
    ensures
        match str_member(member_models(ms@), key@) {
            Some(s) => r is Some && r->0@ == s,
            None => r is None,
        },
{
    match member_lookup(ms, key) {
        Some(JsonValue::Str(s)) => Some(s.clone()),
        _ => None,
    }
}

fn json_key_error_exec(key: &str, fields: &[MetadataFieldConfig]) -> (r: Option<JsonInputError>)
    ensures
        match r {
            Some(e) => json_key_error(key@, field_paths(fields@)) == Some(e@),
            None => json_key_error(key@, field_paths(fields@)) is None,
        },
{
    let kc = chars_of(key);
    let is_user = crate::parser::starts_with_at(&kc, 0, &['u', 's', 'e', 'r', '.']);
    proof {
        reveal_strlit("user.");
        assert(kc@.skip(0) =~= kc@);
        assert(seq!['u', 's', 'e', 'r', '.'] =~= "user."@);
    }
    if is_user {
        if declared(fields, key) {
            None
        } else {
            Some(JsonInputError::UndeclaredUserKey { key: key.to_owned() })
        }
    } else if is_core_overridable(key) {
        None
    } else {
        Some(JsonInputError::UnknownKey { key: key.to_owned() })
    }
}

/// Reads a `--json` creation input (`creation_input`): metadata overrides,
/// keys checked as for `--meta`, and an optional title and body.
pub fn parse_json_creation_input(json_str: &str, metadata_fields: &[MetadataFieldConfig]) -> (r: Result<
    (MetaOverrides, Option<String>, Option<String>),
    JsonInputError,
>)
    ensures
        match r {
            Ok((o, t, b)) => creation_input(json_str@, field_paths(metadata_fields@)) matches Ok((m, tt, bb)) && o@ == m
                && (match tt {
                Some(x) => t is Some && t->0@ == x,
                None => t is None,
            }) && (match bb {
                Some(x) => b is Some && b->0@ == x,
                None => b is None,
            }),
            Err(e) => creation_input(json_str@, field_paths(metadata_fields@)) == Err::<
                (Map<Seq<char>, TomlModel>, Option<Seq<char>>, Option<Seq<char>>),
                JsonInputErrorModel,
            >(e@),
        },
{
    let doc = match parse_json_object(json_str) {
        Some(d) => d,
        None => return Err(JsonInputError::NotAnObject),
    };
    let title = str_member_exec(&doc, "title");
    let body = str_member_exec(&doc, "content");
    let mut overrides = MetaOverrides::new();
    match member_lookup(&doc, "metadata") {
        None => {},
        Some(JsonValue::Object(ms)) => {
            let ghost mm = member_models(ms@);
            let ghost ps = field_paths(metadata_fields@);
            proof {
                lemma_member_models(ms@);
            }
            let mut k: usize = 0;
            while k < ms.len()
                invariant
                    k <= ms.len(),
                    mm == member_models(ms@),
                    mm.len() == ms.len(),
                    ps == field_paths(metadata_fields@),
                    forall|i: int| 0 <= i < ms.len() ==> #[trigger] mm[i] == (ms@[i].0@, json_model(ms@[i].1)),
                    json_overrides_upto(mm, ps, k as int) matches Ok(es) && overrides@ == overrides_map(es),
                    json_object_document(json_str@) == Some(member_models(doc@)),
                    member_value(member_models(doc@), "metadata"@, 0) == Some(JsonModel::Object(mm)),
                decreases ms.len() - k,
            {
                assert(mm[k as int] == (ms@[k as int].0@, ms@[k as int].1@));
                match json_key_error_exec(ms[k].0.as_str(), metadata_fields) {
                    Some(e) => {
                        proof {
                            lemma_json_overrides_err(mm, ps, k + 1, ms.len() as int);
                        }
                        return Err(e);
                    },
                    None => {},
                }
                let v = json_value_to_toml(&ms[k].1);
                let ghost es = json_overrides_upto(mm, ps, k as int)->Ok_0;
                let key = ms[k].0.clone();
                overrides.insert(key, v);
                assert(overrides_map(es.push((key@, v@))) == overrides_map(es).insert(key@, v@)) by {
                    assert(es.push((key@, v@)).drop_last() =~= es);
                }
                k += 1;
            }
        },
        Some(_) => return Err(JsonInputError::MetadataNotObject),
    }
    Ok((overrides, title, body))
}

// ---------------------------------------------------------------------------
// The content of a new note
// ---------------------------------------------------------------------------

pub open spec fn opt_str(o: Option<&str>) -> Option<Seq<char>> {
    match o {
        Some(s) => Some(s@),
        None => None,
    }
}

pub open spec fn or_empty(o: Option<Seq<char>>) -> Seq<char> {
    match o {
        Some(s) => s,
        None => seq![],
    }
}

/// The heading of a new note: `= TITLE <ID>`, with an empty title where
/// there is none.
pub open spec fn heading_text(id: Seq<char>, title: Option<Seq<char>>) -> Seq<char> {
    if or_empty(title).len() > 0 {
        "= "@ + or_empty(title) + " <"@ + id + ">"@
    } else {
        "=  <"@ + id + ">"@
    }
}

/// The content of a new note: the template with `{{id}}`, `{{metadata}}`,
/// `{{title}}` and `{{content}}` replaced in that order, or else the
/// standard note with its metadata block, heading and body.
pub open spec fn note_content(
    id: Seq<char>,
    fields: Seq<MetadataFieldConfig>,
    template: Option<Seq<char>>,
    ov: Map<Seq<char>, TomlModel>,
    title: Option<Seq<char>>,
    body: Option<Seq<char>>,
) -> Seq<char> {
    let block = metadata_block(fields, ov);
    match template {
        Some(t) => replace_all(
            replace_all(replace_all(replace_all(t, "{{id}}"@, id), "{{metadata}}"@, block), "{{title}}"@, or_empty(title)),
            "{{content}}"@,
            or_empty(body),
        ),
        None => "#import \"../include.typ\": *\n"@ + block + "\n#show: zettel.with(metadata: zk-metadata)\n\n"@
            + heading_text(id, title) + "\n"@ + (if or_empty(body).len() > 0 {
            "\n"@ + or_empty(body)
        } else {
            seq![]
        }),
    }
}

/// The content of a new note (`note_content`).
pub fn build_note_content(
    id: &str,
    metadata_fields: &[MetadataFieldConfig],
    template: Option<&str>,
    overrides: &MetaOverrides,
    title: Option<&str>,
    body: Option<&str>,
) -> (r: String)
    ensures
        r@ == note_content(id@, metadata_fields@, opt_str(template), overrides@, opt_str(title), opt_str(body)),
{
    let block = build_metadata_block(metadata_fields, overrides);
    let t = match title {
        Some(x) => x,
        None => "",
    };
    let b = match body {
        Some(x) => x,
        None => "",
    };
    proof {
        reveal_strlit("");
        reveal_strlit("{{id}}");
        reveal_strlit("{{metadata}}");
        reveal_strlit("{{title}}");
        reveal_strlit("{{content}}");
    }
    assert(t@ == or_empty(opt_str(title)));
    assert(b@ == or_empty(opt_str(body)));
    match template {
        Some(tmpl) => {
            let a = crate::text::replace_str(tmpl, "{{id}}", id);
            let c = crate::text::replace_str(a.as_str(), "{{metadata}}", block.as_str());
            let d = crate::text::replace_str(c.as_str(), "{{title}}", t);
            crate::text::replace_str(d.as_str(), "{{content}}", b)
        },
        None => {
            let tc = chars_of(t);
            let bc = chars_of(b);
            let mut out: Vec<char> = Vec::new();
            push_str(&mut out, "#import \"../include.typ\": *\n");
            push_str(&mut out, block.as_str());
            push_str(&mut out, "\n#show: zettel.with(metadata: zk-metadata)\n\n");
            let ghost before_heading = out@;
            if tc.len() > 0 {
                push_str(&mut out, "= ");
                push_str(&mut out, t);
                push_str(&mut out, " <");
            } else {
                push_str(&mut out, "=  <");
            }
            push_str(&mut out, id);
            push_str(&mut out, ">");
            proof {
                reveal_strlit("= ");
                reveal_strlit(" <");
                reveal_strlit("=  <");
                reveal_strlit(">");
            }
            assert(out@ =~= before_heading + heading_text(id@, opt_str(title)));
            push_str(&mut out, "\n");
            let ghost before_body = out@;
            if bc.len() > 0 {
                push_str(&mut out, "\n");
                push_str(&mut out, b);
            }
            proof {
                reveal_strlit("\n");
            }
            assert(out@ =~= note_content(
                id@,
                metadata_fields@,
                opt_str(template),
                overrides@,
                opt_str(title),
                opt_str(body),
            ));
            string_from_chars(&out)
        },
    }
}

} // verus!
