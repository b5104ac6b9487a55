//! Checking and applying the text edits a hook returns.
use vstd::prelude::*;
use crate::cycle::dec;
use crate::handlers::formatting::{
    apply_byte_edits, apply_edits_spec, bounds_error, dec_of, on_boundaries, overlap_error, sort_by_start, EditError,
};
use crate::hooks::types::{HookResult, HookTextEdit};
use crate::text::{str_byte_len, utf8_len};

verus! {

/// A hook's edits as `(start, end, text)` triples.
pub open spec fn hook_edits(es: Seq<HookTextEdit>) -> Seq<(usize, usize, String)> {
    es.map_values(|e: HookTextEdit| (e.start_byte, e.end_byte, e.text))
}

/// A hook result whose edits are rejected.
#[derive(Debug, Clone, PartialEq, Eq, Structural)]
pub enum HookEditError {
    Inverted { start_byte: usize, end_byte: usize },
    OutOfBounds { end_byte: usize, len: usize },
    Overlap { first_start: usize, first_end: usize, second_start: usize, second_end: usize },
}

pub open spec fn hook_error(e: EditError) -> HookEditError {
    match e {
        EditError::Inverted { start, end } => HookEditError::Inverted { start_byte: start, end_byte: end },
        EditError::OutOfBounds { end, len } => HookEditError::OutOfBounds { end_byte: end, len },
        EditError::Overlap { first_start, first_end, second_start, second_end } => HookEditError::Overlap {
            first_start,
            first_end,
            second_start,
            second_end,
        },
    }
}

pub open spec fn hook_error_message(e: HookEditError) -> Seq<char> {
    match e {
        HookEditError::Inverted { start_byte, end_byte } => "edit has start_byte ("@ + dec_of(start_byte) + ") > end_byte ("@
            + dec_of(end_byte) + ")"@,
        HookEditError::OutOfBounds { end_byte, len } => "edit end_byte ("@ + dec_of(end_byte) + ") out of bounds (content len="@
            + dec_of(len) + ")"@,
        HookEditError::Overlap { first_start, first_end, second_start, second_end } => "edits overlap: ["@ + dec_of(first_start)
            + ", "@ + dec_of(first_end) + ") and ["@ + dec_of(second_start) + ", "@ + dec_of(second_end) + ")"@,
    }
}

fn push_dec(out: &mut Vec<char>, n: usize)
    ensures
        final(out)@ == old(out)@ + dec_of(n),
{
    let d = crate::cycle::dec_exec(n as u64);
    crate::text::push_chars(out, &d);
}

impl HookEditError {
    /// The message shown for the error.
    pub fn message(&self) -> (r: String)
        ensures
            r@ == hook_error_message(*self),
    {
        let mut out: Vec<char> = Vec::new();
        match *self {
            HookEditError::Inverted { start_byte, end_byte } => {
                crate::text::push_str(&mut out, "edit has start_byte (");
                push_dec(&mut out, start_byte);
                crate::text::push_str(&mut out, ") > end_byte (");
                push_dec(&mut out, end_byte);
                crate::text::push_str(&mut out, ")");
            },
            HookEditError::OutOfBounds { end_byte, len } => {
                crate::text::push_str(&mut out, "edit end_byte (");
                push_dec(&mut out, end_byte);
                crate::text::push_str(&mut out, ") out of bounds (content len=");
                push_dec(&mut out, len);
                crate::text::push_str(&mut out, ")");
            },
            HookEditError::Overlap { first_start, first_end, second_start, second_end } => {
                crate::text::push_str(&mut out, "edits overlap: [");
                push_dec(&mut out, first_start);
                crate::text::push_str(&mut out, ", ");
                push_dec(&mut out, first_end);
                crate::text::push_str(&mut out, ") and [");
                push_dec(&mut out, second_start);
                crate::text::push_str(&mut out, ", ");
                push_dec(&mut out, second_end);
                crate::text::push_str(&mut out, ")");
            },
        }
        crate::text::string_from_chars(&out)
    }
}

/// The first problem of a hook's edits: a range error, else an overlap in
/// start order.
pub open spec fn hook_check(content: Seq<char>, es: Seq<HookTextEdit>) -> Option<HookEditError> {
    let t = hook_edits(es);
    match bounds_error(t, utf8_len(content) as usize, 0) {
        Some(e) => Some(hook_error(e)),
        None => match overlap_error(sort_by_start(t, t.len() as int), 0) {
            Some(e) => Some(hook_error(e)),
            None => None,
        },
    }
}

fn edit_tuples(es: &Vec<HookTextEdit>) -> (r: Vec<(usize, usize, String)>)
    ensures
        r@ == hook_edits(es@),
{
    let mut out: Vec<(usize, usize, String)> = Vec::new();
    let mut k: usize = 0;
    while k < es.len()
        invariant
            k <= es.len(),
            out@ == hook_edits(es@).take(k as int),
        decreases es.len() - k,
    {
        out.push((es[k].start_byte, es[k].end_byte, es[k].text.clone()));
        assert(out@ =~= hook_edits(es@).take(k + 1));
        k += 1;
    }
    assert(hook_edits(es@).take(es.len() as int) =~= hook_edits(es@));
    out
}

fn hook_error_of(e: EditError) -> (r: HookEditError)
    ensures
        r == hook_error(e),
{
    match e {
        EditError::Inverted { start, end } => HookEditError::Inverted { start_byte: start, end_byte: end },
        EditError::OutOfBounds { end, len } => HookEditError::OutOfBounds { end_byte: end, len },
        EditError::Overlap { first_start, first_end, second_start, second_end } => HookEditError::Overlap {
            first_start,
            first_end,
            second_start,
            second_end,
        },
    }
}

/// Checks that every edit of `result` lies in `content`, start no later
/// than end, and that no two overlap.
pub fn validate_hook_result(result: &HookResult, content: &str) -> (r: Result<(), HookEditError>)
    ensures
        match r {
            Ok(()) => hook_check(content@, result.edits@) is None,
            Err(e) => hook_check(content@, result.edits@) == Some(e),
        },
{
    let t = edit_tuples(&result.edits);
    let len = str_byte_len(content);
    let mut k: usize = 0;
    while k < t.len()
        invariant
            k <= t.len(),
            len == utf8_len(content@),
            t@ == hook_edits(result.edits@),
            bounds_error(t@, len, 0) == bounds_error(t@, len, k as int),
        decreases t.len() - k,
    {
        if !(t[k].0 <= t[k].1) {
            return Err(HookEditError::Inverted { start_byte: t[k].0, end_byte: t[k].1 });
        }
        if !(t[k].1 <= len) {
            return Err(HookEditError::OutOfBounds { end_byte: t[k].1, len });
        }
        k += 1;
    }
    let sorted = crate::handlers::formatting::sorted_by_start(&t);
    let mut w: usize = 0;
    while sorted.len() > 0 && w < sorted.len() - 1
        invariant
            w <= sorted.len(),
            len == utf8_len(content@),
            t@ == hook_edits(result.edits@),
            bounds_error(t@, len, 0) is None,
            sorted@ == sort_by_start(t@, t.len() as int),
            overlap_error(sorted@, 0) == overlap_error(sorted@, w as int),
        decreases sorted.len() - w,
    {
        if !(sorted[w].1 <= sorted[w + 1].0) {
            return Err(HookEditError::Overlap {
                first_start: sorted[w].0,
                first_end: sorted[w].1,
                second_start: sorted[w + 1].0,
                second_end: sorted[w + 1].1,
            });
        }
        w += 1;
    }
    Ok(())
}

/// Applies the edits of a hook result to `content` once they check out;
/// no edits leave the content as it is.
pub fn apply_hook_text_edits(result: &HookResult, content: &str) -> (r: Result<String, HookEditError>)
    requires
        hook_check(content@, result.edits@) is None ==> on_boundaries(content@, hook_edits(result.edits@)),
    ensures
        match r {
            Ok(s) => hook_check(content@, result.edits@) is None && apply_edits_spec(content@, hook_edits(result.edits@))
                == Ok::<Seq<char>, EditError>(s@),
            Err(e) => hook_check(content@, result.edits@) == Some(e),
        },
{
    match validate_hook_result(result, content) {
        Err(e) => return Err(e),
        Ok(()) => {},
    }
    if result.edits.len() == 0 {
        proof {
            assert(hook_edits(result.edits@) =~= Seq::<(usize, usize, String)>::empty());
            assert(sort_by_start(Seq::<(usize, usize, String)>::empty(), 0) =~= Seq::<(usize, usize, String)>::empty());
            assert(content@.subrange(0, content@.len() as int) =~= content@);
        }
        return Ok(content.to_owned());
    }
    let t = edit_tuples(&result.edits);
    match apply_byte_edits(content, t.as_slice()) {
        Ok(s) => Ok(s),
        Err(e) => Err(hook_error_of(e)),
    }
}

} // verus!
