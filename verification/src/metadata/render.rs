//! Writing the metadata index as TOML text: keys in sorted order, core
//! fields of each record first and in their order, the `user` table of a
//! record as a subtable.
use vstd::prelude::*;
use crate::cycle::{dec, dec_exec, str_lt, str_lt_exec};
use crate::metadata::index::notes_of;
use crate::metadata::records::core_fields;
use crate::note_ops::{bool_chars, bool_text, debug_quoted, debug_str, entry_value};
use crate::text::{chars_of, push_chars, push_str};
use crate::toml_value::{
    copy_toml, entry_models, lemma_entry_models, lemma_toml_models, toml_model, toml_models, TomlModel, TomlValue,
};

verus! {

/// A character that a bare TOML key may hold.
pub open spec fn is_key_char(c: char) -> bool {
    ('a' <= c && c <= 'z') || ('A' <= c && c <= 'Z') || ('0' <= c && c <= '9') || c == '_' || c == '-'
}

/// A key as written: bare where every character may stand in a bare key,
/// else quoted as Rust's `Debug` quotes a string.
pub open spec fn render_key(k: Seq<char>) -> Seq<char> {
    if forall|i: int| 0 <= i < k.len() ==> is_key_char(#[trigger] k[i]) {
        k
    } else {
        debug_str(k)
    }
}

/// An integer in decimal.
pub open spec fn int_text(n: i64) -> Seq<char> {
    if n < 0 {
        "-"@ + dec((0 - n) as nat)
    } else {
        dec(n as nat)
    }
}

/// A value as written: strings quoted as Rust's `Debug` quotes them,
/// arrays in brackets, tables inline with their keys as they are.
pub open spec fn render_value(v: TomlModel) -> Seq<char>
    decreases v,
{
    match v {
        TomlModel::String(s) => debug_str(s),
        TomlModel::Integer(n) => int_text(n),
        TomlModel::Float(t) => t,
        TomlModel::Boolean(b) => bool_text(b),
        TomlModel::Datetime(t) => t,
        TomlModel::Array(items) => "["@ + render_items(items) + "]"@,
        TomlModel::Table(es) => "{ "@ + render_members(es) + " }"@,
    }
}

/// Array items, each written, joined by `, `.
pub open spec fn render_items(items: Seq<TomlModel>) -> Seq<char>
    decreases items,
{
    if items.len() == 0 {
        seq![]
    } else if items.len() == 1 {
        render_value(items[0])
    } else {
        render_items(items.subrange(0, items.len() - 1)) + ", "@ + render_value(items[items.len() - 1])
    }
}

/// Inline table members, `key = value`, joined by `, `.
pub open spec fn render_members(es: Seq<(Seq<char>, TomlModel)>) -> Seq<char>
    decreases es,
{
    if es.len() == 0 {
        seq![]
    } else if es.len() == 1 {
        es[0].0 + " = "@ + render_value(es[0].1)
    } else {
        render_members(es.subrange(0, es.len() - 1)) + ", "@ + es[es.len() - 1].0 + " = "@ + render_value(
            es[es.len() - 1].1,
        )
    }
}

fn int_chars(n: i64) -> (r: Vec<char>)
    ensures
        r@ == int_text(n),
{
    if n < 0 {
        let m: u64 = (0i128 - n as i128) as u64;
        let mut out = chars_of("-");
        let d = dec_exec(m);
        push_chars(&mut out, &d);
        proof {
            reveal_strlit("-");
        }
        out
    } else {
        dec_exec(n as u64)
    }
}

fn push_debug(out: &mut Vec<char>, s: &str)
    ensures
        final(out)@ == old(out)@ + debug_str(s@),
{
    let q = debug_quoted(s);
    push_str(out, q.as_str());
}

fn key_chars(k: &str) -> (r: Vec<char>)
    ensures
        r@ == render_key(k@),
{
    let cs = chars_of(k);
    let mut i: usize = 0;
    while i < cs.len()
        invariant
            i <= cs.len(),
            cs@ == k@,
            forall|j: int| 0 <= j < i ==> is_key_char(#[trigger] cs@[j]),
        decreases cs.len() - i,
    {
        let c = cs[i];
        let ok = ('a' <= c && c <= 'z') || ('A' <= c && c <= 'Z') || ('0' <= c && c <= '9') || c == '_' || c == '-';
        if !ok {
            let mut out: Vec<char> = Vec::new();
            push_debug(&mut out, k);
            assert(out@ =~= debug_str(k@));
            return out;
        }
        i += 1;
    }
    cs
}

/// Appends a written value (`render_value`).
fn push_value(out: &mut Vec<char>, v: &TomlValue)
    ensures
        final(out)@ == old(out)@ + render_value(v@),
    decreases v,
{
    match v {
        TomlValue::String(s) => push_debug(out, s.as_str()),
        TomlValue::Integer(n) => {
            let t = int_chars(*n);
            push_chars(out, &t);
        },
        TomlValue::Float(t) => push_str(out, t.as_str()),
        TomlValue::Datetime(t) => push_str(out, t.as_str()),
        TomlValue::Boolean(b) => {
            let t = bool_chars(*b);
            push_chars(out, &t);
        },
        TomlValue::Array(items) => {
            let ghost start = out@;
            let ghost im = toml_models(items@);
            proof {
                lemma_toml_models(items@);
                reveal_strlit("[");
                reveal_strlit("]");
                reveal_strlit(", ");
            }
            push_str(out, "[");
            let mut k: usize = 0;
            while k < items.len()
                invariant
                    k <= items.len(),
                    im == toml_models(items@),
                    im.len() == items.len(),
                    forall|i: int| 0 <= i < items.len() ==> #[trigger] im[i] == toml_model(items@[i]),
                    out@ == start + "["@ + render_items(im.subrange(0, k as int)),
                    *v == TomlValue::Array(*items),
                decreases items.len() - k,
            {
                let ghost before = out@;
                if k > 0 {
                    push_str(out, ", ");
                }
                proof {
                    assert(decreases_to!(*v => (*v)->Array_0));
                    assert(decreases_to!((*v)->Array_0 => (*v)->Array_0@));
                    assert(decreases_to!(items@ => items@[k as int]));
                    assert(decreases_to!(*v => items@[k as int]));
                }
                push_value(out, &items[k]);
                proof {
                    let sub = im.subrange(0, k + 1);
                    assert(sub.subrange(0, k as int) =~= im.subrange(0, k as int));
                    assert(sub[k as int] == items@[k as int]@);
                    if k == 0 {
                        assert(im.subrange(0, 0) =~= Seq::<TomlModel>::empty());
                        assert(out@ =~= start + "["@ + render_items(sub));
                    } else {
                        assert(out@ =~= start + "["@ + render_items(sub));
                    }
                }
                k += 1;
            }
            assert(im.subrange(0, items.len() as int) =~= im);
            push_str(out, "]");
            assert(toml_model(*v) == TomlModel::Array(im));
        },
        TomlValue::Table(es) => {
            let ghost start = out@;
            let ghost em = entry_models(es@);
            proof {
                lemma_entry_models(es@);
                reveal_strlit("{ ");
                reveal_strlit(" }");
                reveal_strlit(", ");
                reveal_strlit(" = ");
            }
            push_str(out, "{ ");
            let mut k: usize = 0;
            while k < es.len()
                invariant
                    k <= es.len(),
                    em == entry_models(es@),
                    em.len() == es.len(),
                    forall|i: int| 0 <= i < es.len() ==> #[trigger] em[i] == (es@[i].0@, toml_model(es@[i].1)),
                    out@ == start + "{ "@ + render_members(em.subrange(0, k as int)),
                    *v == TomlValue::Table(*es),
                decreases es.len() - k,
            {
                if k > 0 {
                    push_str(out, ", ");
                }
                push_str(out, es[k].0.as_str());
                push_str(out, " = ");
                proof {
                    assert(decreases_to!(*v => (*v)->Table_0));
                    assert(decreases_to!((*v)->Table_0 => (*v)->Table_0@));
                    assert(decreases_to!(es@ => es@[k as int]));
                    assert(decreases_to!(es@[k as int] => es@[k as int].1));
                    assert(decreases_to!(*v => es@[k as int].1));
                }
                push_value(out, &es[k].1);
                proof {
                    let sub = em.subrange(0, k + 1);
                    assert(sub.subrange(0, k as int) =~= em.subrange(0, k as int));
                    assert(sub[k as int] == (es@[k as int].0@, es@[k as int].1@));
                    if k == 0 {
                        assert(em.subrange(0, 0) =~= Seq::<(Seq<char>, TomlModel)>::empty());
                        assert(out@ =~= start + "{ "@ + render_members(sub));
                    } else {
                        assert(out@ =~= start + "{ "@ + render_members(sub));
                    }
                }
                k += 1;
            }
            assert(em.subrange(0, es.len() as int) =~= em);
            push_str(out, " }");
            assert(toml_model(*v) == TomlModel::Table(em));
        },
    }
}


// ---------------------------------------------------------------------------
// Sections
// ---------------------------------------------------------------------------

/// Which entries a part of the index holds.
#[derive(Clone, Copy, PartialEq, Eq, Structural)]
pub enum Keep {
    /// Top-level entries other than `format-version` and `notes`.
    TopLevel,
    /// Entries whose value is no table.
    Scalars,
    /// Entries whose value is a table.
    Tables,
    /// Record entries that are neither core fields nor `user`.
    RecordOthers,
}

pub open spec fn keeps(mode: Keep, e: (Seq<char>, TomlModel)) -> bool {
    match mode {
        Keep::TopLevel => e.0 != "format-version"@ && e.0 != "notes"@,
        Keep::Scalars => !(e.1 is Table),
        Keep::Tables => e.1 is Table,
        Keep::RecordOthers => !core_fields().contains(e.0) && e.0 != "user"@,
    }
}

/// The entries of `es[..n]` that `mode` keeps, in their order.
pub open spec fn keep_upto(es: Seq<(Seq<char>, TomlModel)>, mode: Keep, n: int) -> Seq<(Seq<char>, TomlModel)>
    decreases n,
{
    if n <= 0 {
        seq![]
    } else if keeps(mode, es[n - 1]) {
        keep_upto(es, mode, n - 1).push(es[n - 1])
    } else {
        keep_upto(es, mode, n - 1)
    }
}

pub open spec fn keep(es: Seq<(Seq<char>, TomlModel)>, mode: Keep) -> Seq<(Seq<char>, TomlModel)> {
    keep_upto(es, mode, es.len() as int)
}

/// `s` with `e` inserted after every entry whose key does not sort after
/// `e`'s.
pub open spec fn insert_sorted(s: Seq<(Seq<char>, TomlModel)>, e: (Seq<char>, TomlModel)) -> Seq<(Seq<char>, TomlModel)>
    decreases s.len(),
{
    if s.len() == 0 {
        seq![e]
    } else if str_lt(e.0, s.last().0) {
        insert_sorted(s.drop_last(), e).push(s.last())
    } else {
        s.push(e)
    }
}

/// The entries of `es[..n]` sorted by key, equal keys in their order.
pub open spec fn sort_upto(es: Seq<(Seq<char>, TomlModel)>, n: int) -> Seq<(Seq<char>, TomlModel)>
    decreases n,
{
    if n <= 0 {
        seq![]
    } else {
        insert_sorted(sort_upto(es, n - 1), es[n - 1])
    }
}

pub open spec fn sorted(es: Seq<(Seq<char>, TomlModel)>) -> Seq<(Seq<char>, TomlModel)> {
    sort_upto(es, es.len() as int)
}

/// One line `key = value`.
pub open spec fn entry_line(e: (Seq<char>, TomlModel)) -> Seq<char> {
    render_key(e.0) + " = "@ + render_value(e.1) + "\n"@
}

/// The lines of `es[..n]`.
pub open spec fn lines_upto(es: Seq<(Seq<char>, TomlModel)>, n: int) -> Seq<char>
    decreases n,
{
    if n <= 0 {
        seq![]
    } else {
        lines_upto(es, n - 1) + entry_line(es[n - 1])
    }
}

pub open spec fn lines_of(es: Seq<(Seq<char>, TomlModel)>) -> Seq<char> {
    lines_upto(es, es.len() as int)
}

/// The line of `key` in a record, if the record has it.
pub open spec fn opt_line(rec: Seq<(Seq<char>, TomlModel)>, key: Seq<char>) -> Seq<char> {
    match entry_value(rec, key, 0) {
        Some(v) => entry_line((key, v)),
        None => seq![],
    }
}

/// The lines of a record's core fields, in their order.
pub open spec fn core_lines(rec: Seq<(Seq<char>, TomlModel)>) -> Seq<char> {
    opt_line(rec, "schema-version"@) + opt_line(rec, "aliases"@) + opt_line(rec, "abstract"@) + opt_line(rec, "keywords"@)
        + opt_line(rec, "generated"@) + opt_line(rec, "checklist-status"@) + opt_line(rec, "relation"@) + opt_line(
        rec,
        "relation-target"@,
    )
}

/// The `user` subtable of a record, where it is a non-empty table.
pub open spec fn user_block(id: Seq<char>, rec: Seq<(Seq<char>, TomlModel)>) -> Seq<char> {
    match entry_value(rec, "user"@, 0) {
        Some(TomlModel::Table(u)) => if u.len() > 0 {
            "\n[notes."@ + debug_str(id) + ".user]\n"@ + lines_of(sorted(u))
        } else {
            seq![]
        },
        _ => seq![],
    }
}

/// The section of one record.
pub open spec fn record_block(id: Seq<char>, rec: Seq<(Seq<char>, TomlModel)>) -> Seq<char> {
    "[notes."@ + debug_str(id) + "]\n"@ + core_lines(rec) + lines_of(sorted(keep(rec, Keep::RecordOthers))) + user_block(
        id,
        rec,
    ) + "\n"@
}

pub open spec fn table_of(v: TomlModel) -> Seq<(Seq<char>, TomlModel)> {
    match v {
        TomlModel::Table(t) => t,
        _ => seq![],
    }
}

/// The sections of the records `ts[..n]`.
pub open spec fn records_upto(ts: Seq<(Seq<char>, TomlModel)>, n: int) -> Seq<char>
    decreases n,
{
    if n <= 0 {
        seq![]
    } else {
        records_upto(ts, n - 1) + record_block(ts[n - 1].0, table_of(ts[n - 1].1))
    }
}

/// The `[notes]` section of the entries of `notes` that are no tables.
pub open spec fn scalars_section(notes: Seq<(Seq<char>, TomlModel)>) -> Seq<char> {
    let sc = sorted(keep(notes, Keep::Scalars));
    if sc.len() > 0 {
        "[notes]\n"@ + lines_of(sc) + "\n"@
    } else {
        seq![]
    }
}

/// The text of an index: the format version, the other top-level entries,
/// the `[notes]` scalars, then one section per record; keys sorted.
pub open spec fn index_text(root: Seq<(Seq<char>, TomlModel)>) -> Seq<char> {
    let top = sorted(keep(root, Keep::TopLevel));
    "format-version = 1\n\n"@ + lines_of(top) + (if top.len() > 0 {
        "\n"@
    } else {
        seq![]
    }) + match notes_of(root) {
        Some(n) => {
            let ts = sorted(keep(n, Keep::Tables));
            scalars_section(n) + records_upto(ts, ts.len() as int)
        },
        None => seq![],
    }
}

fn keeps_exec(mode: Keep, key: &str, v: &TomlValue) -> (r: bool)
    ensures
        r == keeps(mode, (key@, v@)),
{
    match mode {
        Keep::TopLevel => !crate::text::str_eq(key, "format-version") && !crate::text::str_eq(key, "notes"),
        Keep::Scalars => !matches!(v, TomlValue::Table(_)),
        Keep::Tables => matches!(v, TomlValue::Table(_)),
        Keep::RecordOthers => !crate::metadata::records::is_core_field(key) && !crate::text::str_eq(key, "user"),
    }
}

fn keep_exec(es: &Vec<(String, TomlValue)>, mode: Keep) -> (r: Vec<(String, TomlValue)>)
    ensures
        entry_models(r@) == keep(entry_models(es@), mode),
{
    let ghost em = entry_models(es@);
    proof {
        lemma_entry_models(es@);
    }
    let mut out: Vec<(String, TomlValue)> = Vec::new();
    assert(entry_models(out@) =~= Seq::<(Seq<char>, TomlModel)>::empty());
    let mut k: usize = 0;
    while k < es.len()
        invariant
            k <= es.len(),
            em == entry_models(es@),
            em.len() == es.len(),
            forall|i: int| 0 <= i < es.len() ==> #[trigger] em[i] == (es@[i].0@, toml_model(es@[i].1)),
            entry_models(out@) == keep_upto(em, mode, k as int),
        decreases es.len() - k,
    {
        assert(em[k as int] == (es@[k as int].0@, es@[k as int].1@));
        if keeps_exec(mode, es[k].0.as_str(), &es[k].1) {
            let e = (es[k].0.clone(), copy_toml(&es[k].1));
            proof {
                crate::metadata_schema::lemma_entry_models_push_pub(out@, e);
            }
            out.push(e);
        }
        k += 1;
    }
    out
}

proof fn lemma_entry_models_insert(t: Seq<(String, TomlValue)>, j: int, e: (String, TomlValue))
    requires
        0 <= j <= t.len(),
    ensures
        entry_models(t.insert(j, e)) == entry_models(t).insert(j, (e.0@, e.1@)),
{
    lemma_entry_models(t);
    lemma_entry_models(t.insert(j, e));
    assert(entry_models(t.insert(j, e)) =~= entry_models(t).insert(j, (e.0@, e.1@)));
}

fn sort_exec(es: &Vec<(String, TomlValue)>) -> (r: Vec<(String, TomlValue)>)
    ensures
        entry_models(r@) == sorted(entry_models(es@)),
{
    let ghost em = entry_models(es@);
    proof {
        lemma_entry_models(es@);
    }
    let mut out: Vec<(String, TomlValue)> = Vec::new();
    assert(entry_models(out@) =~= Seq::<(Seq<char>, TomlModel)>::empty());
    let mut k: usize = 0;
    while k < es.len()
        invariant
            k <= es.len(),
            em == entry_models(es@),
            em.len() == es.len(),
            forall|i: int| 0 <= i < es.len() ==> #[trigger] em[i] == (es@[i].0@, toml_model(es@[i].1)),
            entry_models(out@) == sort_upto(em, k as int),
        decreases es.len() - k,
    {
        let e = (es[k].0.clone(), copy_toml(&es[k].1));
        let ghost ev = (e.0@, e.1@);
        assert(em[k as int] == ev);
        let ghost s = entry_models(out@);
        proof {
            lemma_entry_models(out@);
            assert(s.take(s.len() as int) =~= s);
            assert(s.skip(s.len() as int) =~= Seq::<(Seq<char>, TomlModel)>::empty());
        }
        let mut j: usize = out.len();
        while j > 0 && str_lt_exec(e.0.as_str(), out[j - 1].0.as_str())
            invariant
                j <= out.len(),
                s == entry_models(out@),
                s.len() == out.len(),
                forall|i: int| 0 <= i < out.len() ==> #[trigger] s[i] == (out@[i].0@, toml_model(out@[i].1)),
                ev == (e.0@, e.1@),
                insert_sorted(s, ev) == insert_sorted(s.take(j as int), ev) + s.skip(j as int),
            decreases j,
        {
            proof {
                let tj = s.take(j as int);
                assert(tj.drop_last() =~= s.take(j - 1));
                assert(tj.last() == s[j - 1]);
                assert(s[j - 1].0 == out@[j - 1].0@);
                assert(insert_sorted(tj, ev) == insert_sorted(s.take(j - 1), ev).push(s[j - 1]));
                assert(insert_sorted(s.take(j - 1), ev).push(s[j - 1]) + s.skip(j as int) =~= insert_sorted(
                    s.take(j - 1),
                    ev,
                ) + s.skip(j - 1));
            }
            j -= 1;
        }
        proof {
            lemma_entry_models_insert(out@, j as int, e);
            if j == 0 {
                assert(s.take(0) =~= Seq::<(Seq<char>, TomlModel)>::empty());
                assert(seq![ev] + s.skip(0) =~= s.insert(0, ev));
            } else {
                let tj = s.take(j as int);
                assert(tj.last() == s[j - 1]);
                assert(s[j - 1].0 == out@[j - 1].0@);
                assert(insert_sorted(tj, ev) == tj.push(ev));
                assert(tj.push(ev) + s.skip(j as int) =~= s.insert(j as int, ev));
            }
        }
        out.insert(j, e);
        k += 1;
    }
    out
}

fn push_entry_line(out: &mut Vec<char>, key: &str, v: &TomlValue)
    ensures
        final(out)@ == old(out)@ + entry_line((key@, v@)),
{
    let k = key_chars(key);
    push_chars(out, &k);
    push_str(out, " = ");
    push_value(out, v);
    push_str(out, "\n");
    proof {
        reveal_strlit(" = ");
        reveal_strlit("\n");
    }
    assert(final(out)@ =~= old(out)@ + entry_line((key@, v@)));
}

fn push_lines(out: &mut Vec<char>, es: &Vec<(String, TomlValue)>)
    ensures
        final(out)@ == old(out)@ + lines_of(entry_models(es@)),
{
    let ghost em = entry_models(es@);
    let ghost start = out@;
    proof {
        lemma_entry_models(es@);
    }
    assert(start =~= start + lines_upto(em, 0));
    let mut k: usize = 0;
    while k < es.len()
        invariant
            k <= es.len(),
            em == entry_models(es@),
            em.len() == es.len(),
            forall|i: int| 0 <= i < es.len() ==> #[trigger] em[i] == (es@[i].0@, toml_model(es@[i].1)),
            out@ == start + lines_upto(em, k as int),
        decreases es.len() - k,
    {
        assert(em[k as int] == (es@[k as int].0@, es@[k as int].1@));
        push_entry_line(out, es[k].0.as_str(), &es[k].1);
        assert(out@ =~= start + lines_upto(em, k + 1));
        k += 1;
    }
}

fn push_opt_line(out: &mut Vec<char>, rec: &Vec<(String, TomlValue)>, key: &str)
    ensures
        final(out)@ == old(out)@ + opt_line(entry_models(rec@), key@),
{
    match crate::handlers::code_actions::entry_lookup(rec, key) {
        Some(v) => push_entry_line(out, key, v),
        None => {
            assert(out@ =~= old(out)@ + opt_line(entry_models(rec@), key@));
        },
    }
}

fn push_core_lines(out: &mut Vec<char>, rec: &Vec<(String, TomlValue)>)
    ensures
        final(out)@ == old(out)@ + core_lines(entry_models(rec@)),
{
    let ghost a = out@;
    push_opt_line(out, rec, "schema-version");
    push_opt_line(out, rec, "aliases");
    push_opt_line(out, rec, "abstract");
    push_opt_line(out, rec, "keywords");
    push_opt_line(out, rec, "generated");
    push_opt_line(out, rec, "checklist-status");
    push_opt_line(out, rec, "relation");
    push_opt_line(out, rec, "relation-target");
    assert(out@ =~= a + core_lines(entry_models(rec@)));
}

fn push_user_block(out: &mut Vec<char>, id: &str, rec: &Vec<(String, TomlValue)>)
    ensures
        final(out)@ == old(out)@ + user_block(id@, entry_models(rec@)),
{
    let ghost a = out@;
    match crate::handlers::code_actions::entry_lookup(rec, "user") {
        Some(TomlValue::Table(u)) => {
            proof {
                lemma_entry_models(u@);
            }
            if u.len() > 0 {
                push_str(out, "\n[notes.");
                push_debug(out, id);
                push_str(out, ".user]\n");
                let su = sort_exec(u);
                push_lines(out, &su);
                proof {
                    reveal_strlit("\n[notes.");
                    reveal_strlit(".user]\n");
                }
            }
        },
        _ => {},
    }
    assert(out@ =~= a + user_block(id@, entry_models(rec@)));
}

fn push_record_block(out: &mut Vec<char>, id: &str, rec: &Vec<(String, TomlValue)>)
    ensures
        final(out)@ == old(out)@ + record_block(id@, entry_models(rec@)),
{
    let ghost start = out@;
    let ghost rm = entry_models(rec@);
    push_str(out, "[notes.");
    push_debug(out, id);
    push_str(out, "]\n");
    push_core_lines(out, rec);
    let others = keep_exec(rec, Keep::RecordOthers);
    let so = sort_exec(&others);
    push_lines(out, &so);
    push_user_block(out, id, rec);
    push_str(out, "\n");
    proof {
        reveal_strlit("[notes.");
        reveal_strlit("]\n");
        reveal_strlit("\n");
    }
    assert(out@ =~= start + record_block(id@, rm));
}

fn push_records(out: &mut Vec<char>, ts: &Vec<(String, TomlValue)>)
    ensures
        final(out)@ == old(out)@ + records_upto(entry_models(ts@), ts.len() as int),
{
    let ghost tm = entry_models(ts@);
    let ghost start = out@;
    proof {
        lemma_entry_models(ts@);
    }
    assert(out@ =~= start + records_upto(tm, 0));
    let mut k: usize = 0;
    while k < ts.len()
        invariant
            k <= ts.len(),
            tm == entry_models(ts@),
            tm.len() == ts.len(),
            forall|i: int| 0 <= i < ts.len() ==> #[trigger] tm[i] == (ts@[i].0@, toml_model(ts@[i].1)),
            out@ == start + records_upto(tm, k as int),
        decreases ts.len() - k,
    {
        assert(tm[k as int] == (ts@[k as int].0@, ts@[k as int].1@));
        match &ts[k].1 {
            TomlValue::Table(rec) => push_record_block(out, ts[k].0.as_str(), rec),
            _ => {
                let empty: Vec<(String, TomlValue)> = Vec::new();
                assert(entry_models(empty@) =~= Seq::<(Seq<char>, TomlModel)>::empty());
                push_record_block(out, ts[k].0.as_str(), &empty);
            },
        }
        assert(out@ =~= start + records_upto(tm, k + 1));
        k += 1;
    }
}

fn push_scalars(out: &mut Vec<char>, notes: &Vec<(String, TomlValue)>)
    ensures
        final(out)@ == old(out)@ + scalars_section(entry_models(notes@)),
{
    let ghost a = out@;
    let kept = keep_exec(notes, Keep::Scalars);
    let sc = sort_exec(&kept);
    proof {
        lemma_entry_models(sc@);
        reveal_strlit("[notes]\n");
        reveal_strlit("\n");
    }
    if sc.len() > 0 {
        push_str(out, "[notes]\n");
        push_lines(out, &sc);
        push_str(out, "\n");
    }
    assert(out@ =~= a + scalars_section(entry_models(notes@)));
}

/// Writes the index as TOML text (`index_text`).
pub fn render_index(root: &Vec<(String, TomlValue)>) -> (r: String)
    ensures
        r@ == index_text(entry_models(root@)),
{
    let ghost rm = entry_models(root@);
    let mut out: Vec<char> = Vec::new();
    push_str(&mut out, "format-version = 1\n\n");
    let kept = keep_exec(root, Keep::TopLevel);
    let top = sort_exec(&kept);
    push_lines(&mut out, &top);
    proof {
        lemma_entry_models(top@);
        reveal_strlit("format-version = 1\n\n");
        reveal_strlit("\n");
    }
    if top.len() > 0 {
        push_str(&mut out, "\n");
    }
    let ghost a = out@;
    match crate::handlers::code_actions::entry_lookup(root, "notes") {
        Some(TomlValue::Table(notes)) => {
            push_scalars(&mut out, notes);
            let kt = keep_exec(notes, Keep::Tables);
            let ts = sort_exec(&kt);
            proof {
                lemma_entry_models(ts@);
            }
            push_records(&mut out, &ts);
        },
        _ => {},
    }
    assert(out@ =~= index_text(rm));
    crate::text::string_from_chars(&out)
}

} // verus!
