//! TOML values as plain data, read and written by the `toml` crate.
use vstd::prelude::*;
use toml::Value as RawToml;

verus! {

/// A TOML value.
#[derive(Debug)]
pub enum TomlValue {
    String(String),
    Integer(i64),
    Boolean(bool),
    Array(Vec<TomlValue>),
    /// A table's entries, in the order the `toml` crate keeps them.
    Table(Vec<(String, TomlValue)>),
    /// A float, held as its TOML text.
    Float(String),
    /// A date-time, held as its TOML text.
    Datetime(String),
}

/// A TOML value as mathematical data.
pub enum TomlModel {
    String(Seq<char>),
    Integer(i64),
    Boolean(bool),
    Array(Seq<TomlModel>),
    Table(Seq<(Seq<char>, TomlModel)>),
    Float(Seq<char>),
    Datetime(Seq<char>),
}

pub open spec fn toml_model(v: TomlValue) -> TomlModel
    decreases v,
{
    match v {
        TomlValue::String(s) => TomlModel::String(s@),
        TomlValue::Integer(n) => TomlModel::Integer(n),
        TomlValue::Boolean(b) => TomlModel::Boolean(b),
        TomlValue::Array(items) => TomlModel::Array(toml_models(items@)),
        TomlValue::Table(entries) => TomlModel::Table(entry_models(entries@)),
        TomlValue::Float(s) => TomlModel::Float(s@),
        TomlValue::Datetime(s) => TomlModel::Datetime(s@),
    }
}

pub open spec fn toml_models(s: Seq<TomlValue>) -> Seq<TomlModel>
    decreases s,
{
    if s.len() == 0 {
        seq![]
    } else {
        toml_models(s.subrange(0, s.len() - 1)).push(toml_model(s[s.len() - 1]))
    }
}

pub open spec fn entry_models(s: Seq<(String, TomlValue)>) -> Seq<(Seq<char>, TomlModel)>
    decreases s,
{
    if s.len() == 0 {
        seq![]
    } else {
        entry_models(s.subrange(0, s.len() - 1)).push((s[s.len() - 1].0@, toml_model(s[s.len() - 1].1)))
    }
}

impl View for TomlValue {
    type V = TomlModel;

    open spec fn view(&self) -> TomlModel {
        toml_model(*self)
    }
}

pub proof fn lemma_toml_models(s: Seq<TomlValue>)
    ensures
        toml_models(s).len() == s.len(),
        forall|i: int| 0 <= i < s.len() ==> #[trigger] toml_models(s)[i] == toml_model(s[i]),
    decreases s.len(),
{
    if s.len() > 0 {
        lemma_toml_models(s.subrange(0, s.len() - 1));
    }
}

pub proof fn lemma_entry_models(s: Seq<(String, TomlValue)>)
    ensures
        entry_models(s).len() == s.len(),
        forall|i: int| 0 <= i < s.len() ==> #[trigger] entry_models(s)[i] == (s[i].0@, toml_model(s[i].1)),
    decreases s.len(),
{
    if s.len() > 0 {
        lemma_entry_models(s.subrange(0, s.len() - 1));
    }
}

/// A copy of a TOML value.
pub fn copy_toml(v: &TomlValue) -> (r: TomlValue)
    ensures
        r@ == v@,
    decreases v,
{
    match v {
        TomlValue::String(s) => TomlValue::String(s.clone()),
        TomlValue::Integer(n) => TomlValue::Integer(*n),
        TomlValue::Boolean(b) => TomlValue::Boolean(*b),
        TomlValue::Float(s) => TomlValue::Float(s.clone()),
        TomlValue::Datetime(s) => TomlValue::Datetime(s.clone()),
        TomlValue::Array(items) => {
            proof {
                lemma_toml_models(items@);
            }
            let mut out: Vec<TomlValue> = Vec::new();
            let mut k: usize = 0;
            while k < items.len()
                invariant
                    k <= items.len(),
                    toml_models(items@).len() == items.len(),
                    forall|i: int| 0 <= i < items.len() ==> #[trigger] toml_models(items@)[i] == toml_model(items@[i]),
                    toml_models(out@) == toml_models(items@).take(k as int),
                    *v == TomlValue::Array(*items),
                decreases items.len() - k,
            {
                proof {
                    assert(decreases_to!(*v => (*v)->Array_0));
                    assert(decreases_to!((*v)->Array_0 => (*v)->Array_0@));
                    assert(decreases_to!(items@ => items@[k as int]));
                    assert(decreases_to!(*v => items@[k as int]));
                }
                let c = copy_toml(&items[k]);
                proof {
                    lemma_toml_models(out@);
                    lemma_toml_models(out@.push(c));
                }
                let ghost before = out@;
                out.push(c);
                assert(out@.subrange(0, out@.len() - 1) =~= before);
                assert(toml_models(out@) =~= toml_models(items@).take(k + 1));
                k += 1;
            }
            assert(toml_models(items@).take(items.len() as int) =~= toml_models(items@));
            TomlValue::Array(out)
        },
        TomlValue::Table(entries) => {
            proof {
                lemma_entry_models(entries@);
            }
            let mut out: Vec<(String, TomlValue)> = Vec::new();
            let mut k: usize = 0;
            while k < entries.len()
                invariant
                    k <= entries.len(),
                    entry_models(entries@).len() == entries.len(),
                    forall|i: int| 0 <= i < entries.len() ==> #[trigger] entry_models(entries@)[i] == (entries@[i].0@, toml_model(entries@[i].1)),
                    entry_models(out@) == entry_models(entries@).take(k as int),
                    *v == TomlValue::Table(*entries),
                decreases entries.len() - k,
            {
                proof {
                    assert(decreases_to!(*v => (*v)->Table_0));
                    assert(decreases_to!((*v)->Table_0 => (*v)->Table_0@));
                    assert(decreases_to!(entries@ => entries@[k as int]));
                    assert(decreases_to!(entries@[k as int] => entries@[k as int].1));
                    assert(decreases_to!(*v => entries@[k as int].1));
                }
                let c = copy_toml(&entries[k].1);
                let e = (entries[k].0.clone(), c);
                let ghost before = out@;
                out.push(e);
                assert(out@.subrange(0, out@.len() - 1) =~= before);
                assert(entry_models(out@) =~= entry_models(entries@).take(k + 1));
                k += 1;
            }
            assert(entry_models(entries@).take(entries.len() as int) =~= entry_models(entries@));
            TomlValue::Table(out)
        },
    }
}

// ---------------------------------------------------------------------------
// The `toml` crate
// ---------------------------------------------------------------------------

#[verifier::external_type_specification]
#[verifier::external_body]
pub struct ExRawToml(RawToml);

/// `v` as a `toml` value; a float or a date-time is read back from its text.
#[verifier::external_body]
fn to_toml(v: &TomlValue) -> RawToml {
    match v {
        TomlValue::String(s) => RawToml::String(s.clone()),
        TomlValue::Integer(n) => RawToml::Integer(*n),
        TomlValue::Boolean(b) => RawToml::Boolean(*b),
        TomlValue::Array(items) => RawToml::Array(items.iter().map(to_toml).collect()),
        TomlValue::Table(entries) => RawToml::Table(entries.iter().map(|(k, x)| (k.clone(), to_toml(x))).collect()),
        TomlValue::Float(text) | TomlValue::Datetime(text) => text.parse::<RawToml>().unwrap_or_else(|_| RawToml::String(text.clone())),
    }
}

/// A `RawToml` as plain data; a float or a date-time keeps its TOML text.
#[verifier::external_body]
fn from_toml(v: &RawToml) -> TomlValue {
    match v {
        RawToml::String(s) => TomlValue::String(s.clone()),
        RawToml::Integer(n) => TomlValue::Integer(*n),
        RawToml::Boolean(b) => TomlValue::Boolean(*b),
        RawToml::Array(items) => TomlValue::Array(items.iter().map(from_toml).collect()),
        RawToml::Table(t) => TomlValue::Table(t.iter().map(|(k, x)| (k.clone(), from_toml(x))).collect()),
        RawToml::Float(_) => TomlValue::Float(v.to_string()),
        RawToml::Datetime(d) => TomlValue::Datetime(d.to_string()),
    }
}

/// What the `toml` crate's parser gives for a document: its top-level
/// table, or none where the text is not valid TOML.
pub uninterp spec fn toml_document(text: Seq<char>) -> Option<Seq<(Seq<char>, TomlModel)>>;

/// The TOML text of a value, as the `toml` crate's `Display` writes it.
pub uninterp spec fn toml_text(v: TomlModel) -> Seq<char>;

/// A pretty TOML document of a table, as `toml::to_string_pretty` writes
/// it, or none where it fails.
pub uninterp spec fn toml_pretty(t: Seq<(Seq<char>, TomlModel)>) -> Option<Seq<char>>;

/// Parses a TOML document with `str::parse::<toml::Table>`. Nothing is
/// claimed of the table beyond its being a function of the text.
#[verifier::external_body]
pub fn parse_toml_document(text: &str) -> (r: Option<Vec<(String, TomlValue)>>)
    ensures
        match r {
            Some(t) => toml_document(text@) == Some(entry_models(t@)),
            None => toml_document(text@) is None,
        },
{
    match text.parse::<toml::Table>() {
        Ok(t) => Some(t.iter().map(|(k, x)| (k.clone(), from_toml(x))).collect()),
        Err(_) => None,
    }
}

/// The TOML text of a value: `RawToml`'s `Display`.
#[verifier::external_body]
pub fn toml_display(v: &TomlValue) -> (r: String)
    ensures
        r@ == toml_text(v@),
{
    to_toml(v).to_string()
}

/// Writes a table as a pretty TOML document with `toml::to_string_pretty`.
#[verifier::external_body]
pub fn toml_to_string_pretty(t: &Vec<(String, TomlValue)>) -> (r: Option<String>)
    ensures
        match r {
            Some(s) => toml_pretty(entry_models(t@)) == Some(s@),
            None => toml_pretty(entry_models(t@)) is None,
        },
{
    let table: toml::Table = t.iter().map(|(k, x)| (k.clone(), to_toml(x))).collect();
    toml::to_string_pretty(&table).ok()
}

/// A copy of a table's entries.
pub fn copy_entries(t: &Vec<(String, TomlValue)>) -> (r: Vec<(String, TomlValue)>)
    ensures
        entry_models(r@) == entry_models(t@),
{
    proof {
        lemma_entry_models(t@);
    }
    let mut out: Vec<(String, TomlValue)> = Vec::new();
    let mut k: usize = 0;
    while k < t.len()
        invariant
            k <= t.len(),
            entry_models(t@).len() == t.len(),
            forall|i: int| 0 <= i < t.len() ==> #[trigger] entry_models(t@)[i] == (t@[i].0@, toml_model(t@[i].1)),
            entry_models(out@) == entry_models(t@).take(k as int),
        decreases t.len() - k,
    {
        let e = (t[k].0.clone(), copy_toml(&t[k].1));
        let ghost before = out@;
        out.push(e);
        assert(out@.subrange(0, out@.len() - 1) =~= before);
        assert(entry_models(out@) =~= entry_models(t@).take(k + 1));
        k += 1;
    }
    assert(entry_models(t@).take(t.len() as int) =~= entry_models(t@));
    out
}

impl Clone for TomlValue {
    fn clone(&self) -> (r: Self)
        ensures
            r@ == self@,
    {
        copy_toml(self)
    }
}

} // verus!
