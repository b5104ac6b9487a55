//! JSON values as plain data, written by the `serde_json` crate.
use vstd::prelude::*;
use serde_json::Value as RawJson;

verus! {

/// A JSON value.
#[derive(Debug)]
pub enum JsonValue {
    Null,
    Bool(bool),
    Int(i64),
    /// An unsigned count, such as a file size.
    UInt(u64),
    /// A number given by the TOML text of a float.
    Float(String),
    Str(String),
    Array(Vec<JsonValue>),
    /// An object's members, in insertion order.
    Object(Vec<(String, JsonValue)>),
}

/// A JSON value as mathematical data.
pub enum JsonModel {
    Null,
    Bool(bool),
    Int(i64),
    UInt(u64),
    Float(Seq<char>),
    Str(Seq<char>),
    Array(Seq<JsonModel>),
    Object(Seq<(Seq<char>, JsonModel)>),
}

pub open spec fn json_model(v: JsonValue) -> JsonModel
    decreases v,
{
    match v {
        JsonValue::Null => JsonModel::Null,
        JsonValue::Bool(b) => JsonModel::Bool(b),
        JsonValue::Int(n) => JsonModel::Int(n),
        JsonValue::UInt(n) => JsonModel::UInt(n),
        JsonValue::Float(t) => JsonModel::Float(t@),
        JsonValue::Str(s) => JsonModel::Str(s@),
        JsonValue::Array(items) => JsonModel::Array(json_models(items@)),
        JsonValue::Object(members) => JsonModel::Object(member_models(members@)),
    }
}

pub open spec fn json_models(s: Seq<JsonValue>) -> Seq<JsonModel>
    decreases s,
{
    if s.len() == 0 {
        seq![]
    } else {
        json_models(s.subrange(0, s.len() - 1)).push(json_model(s[s.len() - 1]))
    }
}

pub open spec fn member_models(s: Seq<(String, JsonValue)>) -> Seq<(Seq<char>, JsonModel)>
    decreases s,
{
    if s.len() == 0 {
        seq![]
    } else {
        member_models(s.subrange(0, s.len() - 1)).push((s[s.len() - 1].0@, json_model(s[s.len() - 1].1)))
    }
}

impl View for JsonValue {
    type V = JsonModel;

    open spec fn view(&self) -> JsonModel {
        json_model(*self)
    }
}

pub proof fn lemma_json_models(s: Seq<JsonValue>)
    ensures
        json_models(s).len() == s.len(),
        forall|i: int| 0 <= i < s.len() ==> #[trigger] json_models(s)[i] == json_model(s[i]),
    decreases s.len(),
{
    if s.len() > 0 {
        lemma_json_models(s.subrange(0, s.len() - 1));
    }
}

pub proof fn lemma_member_models(s: Seq<(String, JsonValue)>)
    ensures
        member_models(s).len() == s.len(),
        forall|i: int| 0 <= i < s.len() ==> #[trigger] member_models(s)[i] == (s[i].0@, json_model(s[i].1)),
    decreases s.len(),
{
    if s.len() > 0 {
        lemma_member_models(s.subrange(0, s.len() - 1));
    }
}

/// A copy of a JSON value.
pub fn copy_json(v: &JsonValue) -> (r: JsonValue)
    ensures
        r@ == v@,
    decreases v,
{
    match v {
        JsonValue::Null => JsonValue::Null,
        JsonValue::Bool(b) => JsonValue::Bool(*b),
        JsonValue::Int(n) => JsonValue::Int(*n),
        JsonValue::UInt(n) => JsonValue::UInt(*n),
        JsonValue::Float(t) => JsonValue::Float(t.clone()),
        JsonValue::Str(t) => JsonValue::Str(t.clone()),
        JsonValue::Array(items) => {
            proof {
                lemma_json_models(items@);
            }
            let mut out: Vec<JsonValue> = Vec::new();
            let mut k: usize = 0;
            while k < items.len()
                invariant
                    k <= items.len(),
                    json_models(items@).len() == items.len(),
                    forall|i: int| 0 <= i < items.len() ==> #[trigger] json_models(items@)[i] == json_model(items@[i]),
                    json_models(out@) == json_models(items@).take(k as int),
                    *v == JsonValue::Array(*items),
                decreases items.len() - k,
            {
                proof {
                    assert(decreases_to!(*v => (*v)->Array_0));
                    assert(decreases_to!((*v)->Array_0 => (*v)->Array_0@));
                    assert(decreases_to!(items@ => items@[k as int]));
                    assert(decreases_to!(*v => items@[k as int]));
                }
                let c = copy_json(&items[k]);
                let ghost before = out@;
                out.push(c);
                assert(out@.subrange(0, out@.len() - 1) =~= before);
                assert(json_models(out@) =~= json_models(items@).take(k + 1));
                k += 1;
            }
            assert(json_models(items@).take(items.len() as int) =~= json_models(items@));
            JsonValue::Array(out)
        },
        JsonValue::Object(members) => {
            proof {
                lemma_member_models(members@);
            }
            let mut out: Vec<(String, JsonValue)> = Vec::new();
            let mut k: usize = 0;
            while k < members.len()
                invariant
                    k <= members.len(),
                    member_models(members@).len() == members.len(),
                    forall|i: int| 0 <= i < members.len() ==> #[trigger] member_models(members@)[i] == (members@[i].0@, json_model(members@[i].1)),
                    member_models(out@) == member_models(members@).take(k as int),
                    *v == JsonValue::Object(*members),
                decreases members.len() - k,
            {
                proof {
                    assert(decreases_to!(*v => (*v)->Object_0));
                    assert(decreases_to!((*v)->Object_0 => (*v)->Object_0@));
                    assert(decreases_to!(members@ => members@[k as int]));
                    assert(decreases_to!(members@[k as int] => members@[k as int].1));
                    assert(decreases_to!(*v => members@[k as int].1));
                }
                let c = copy_json(&members[k].1);
                let e = (members[k].0.clone(), c);
                let ghost before = out@;
                out.push(e);
                assert(out@.subrange(0, out@.len() - 1) =~= before);
                assert(member_models(out@) =~= member_models(members@).take(k + 1));
                k += 1;
            }
            assert(member_models(members@).take(members.len() as int) =~= member_models(members@));
            JsonValue::Object(out)
        },
    }
}

impl Clone for JsonValue {
    fn clone(&self) -> (r: Self)
        ensures
            r@ == self@,
    {
        copy_json(self)
    }
}

#[verifier::external_type_specification]
#[verifier::external_body]
pub struct ExRawJson(RawJson);

/// A float given by its TOML text as a `serde_json` number; one that JSON
/// cannot hold becomes `null`.
#[verifier::external_body]
fn float_json(t: &str) -> RawJson {
    t.parse::<toml::Value>().ok().and_then(|x| x.as_float()).and_then(serde_json::Number::from_f64).map(RawJson::Number).unwrap_or(RawJson::Null)
}

/// `v` as a `serde_json` value; a float is read from its TOML text, and one
/// that JSON cannot hold becomes `null`.
#[verifier::external_body]
fn to_json(v: &JsonValue) -> RawJson {
    match v {
        JsonValue::Null => RawJson::Null,
        JsonValue::Bool(b) => RawJson::Bool(*b),
        JsonValue::Int(n) => RawJson::Number((*n).into()),
        JsonValue::UInt(n) => RawJson::Number((*n).into()),
        JsonValue::Float(t) => float_json(t),
        JsonValue::Str(s) => RawJson::String(s.clone()),
        JsonValue::Array(items) => RawJson::Array(items.iter().map(to_json).collect()),
        JsonValue::Object(members) => RawJson::Object(members.iter().map(|(k, x)| (k.clone(), to_json(x))).collect()),
    }
}

/// The pretty JSON text of a value, as `serde_json::to_string_pretty`
/// writes it, or none where it fails.
pub uninterp spec fn json_pretty(v: JsonModel) -> Option<Seq<char>>;

/// Writes a value as pretty JSON with `serde_json::to_string_pretty`.
#[verifier::external_body]
pub fn json_to_string_pretty(v: &JsonValue) -> (r: Option<String>)
    ensures
        match r {
            Some(s) => json_pretty(v@) == Some(s@),
            None => json_pretty(v@) is None,
        },
{
    serde_json::to_string_pretty(&to_json(v)).ok()
}

/// A `serde_json` number as plain data: an `i64`, else a float kept by the
/// TOML text of its `f64` value.
#[verifier::external_body]
fn from_json_number(n: &RawJson) -> JsonValue {
    match n.as_i64() {
        Some(i) => JsonValue::Int(i),
        None => JsonValue::Float(n.as_f64().map(|f| toml::Value::Float(f).to_string()).unwrap_or_else(|| n.to_string())),
    }
}

/// A `serde_json` value as plain data.
#[verifier::external_body]
fn from_json(v: &RawJson) -> JsonValue {
    match v {
        RawJson::Null => JsonValue::Null,
        RawJson::Bool(b) => JsonValue::Bool(*b),
        RawJson::Number(_) => from_json_number(v),
        RawJson::String(s) => JsonValue::Str(s.clone()),
        RawJson::Array(items) => JsonValue::Array(items.iter().map(from_json).collect()),
        RawJson::Object(m) => JsonValue::Object(m.iter().map(|(k, x)| (k.clone(), from_json(x))).collect()),
    }
}

/// The members of the JSON object that `serde_json` reads from a text, or
/// none where the text is no JSON object.
pub uninterp spec fn json_object_document(text: Seq<char>) -> Option<Seq<(Seq<char>, JsonModel)>>;

/// Reads a JSON object with `serde_json::from_str::<serde_json::Map<..>>`.
/// Nothing is claimed of the members beyond their being a function of the
/// text.
#[verifier::external_body]
pub fn parse_json_object(text: &str) -> (r: Option<Vec<(String, JsonValue)>>)
    ensures
        match r {
            Some(m) => json_object_document(text@) == Some(member_models(m@)),
            None => json_object_document(text@) is None,
        },
{
    match serde_json::from_str::<serde_json::Map<String, RawJson>>(text) {
        Ok(m) => Some(m.iter().map(|(k, x)| (k.clone(), from_json(x))).collect()),
        Err(_) => None,
    }
}

} // verus!
