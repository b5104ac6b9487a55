//! Laws on what single operations answer, over all inputs: when a note's
//! checklist is done, what the DSL builtins compute and how they are typed,
//! how the ref sync sets checkboxes, and which `<ID>` links are found.
use vstd::prelude::*;
use crate::parser::{checklist_items, items_done, ChecklistItem, ChecklistItemKind};
use crate::reconcile::note_done;
use crate::reconcile::writeback::{checklist_done, note_done_with_deps};
use crate::reconcile::eval::{builtin_value, Ctx, EvalErrorModel};
use crate::reconcile::types::ValueModel;
use crate::reconcile::typecheck::builtin_type;
use crate::reconcile::types::Type;
use crate::reconcile::ast::ExprModel;
use crate::parser::{indent_bytes, is_todo_line, outside_fence, todo_state};
use crate::reconcile::writeback::{apply_edits, line_ids, ref_sync, replace_state, sync_edit};
use crate::text::{ends_with_newline, lines, rejoin, trim_start, ws_prefix_len};
use crate::parser::{drop_self, id_matches, link_ids, link_scan, links_upto, note_header, segment_angle_ids, segs_angle_ids};

verus! {

// ---------------------------------------------------------------------------
// Checklist completion
// ---------------------------------------------------------------------------

/// A ref item of a parsed checklist with a target that is not done in the
/// dependency states, and that is not followed by a more deeply indented
/// item, keeps the checklist from being done.
pub proof fn law_undone_ref_leaf_blocks_checklist(content: Seq<char>, m: Map<Seq<char>, bool>, i: int, k: int)
    requires
        0 <= i < checklist_items(content).len(),
        0 <= k < checklist_items(content)[i].targets.len(),
        !(m.contains_key(checklist_items(content)[i].targets[k].id) && m[checklist_items(content)[i].targets[k].id]),
        i + 1 == checklist_items(content).len() || checklist_items(content)[i + 1].indent
            <= checklist_items(content)[i].indent,
    ensures
        !checklist_done(content, m),
        !note_done_with_deps(content, m),
{
    let items = checklist_items(content);
    assert(items.len() > 0);
    assert(i + 1 >= items.len() || items[i + 1].indent <= items[i].indent);
    assert(!crate::parser::dep_done(m, items[i].targets[k].id));
    assert(!crate::reconcile::writeback::model_truth(items[i], m));
}

/// An unchecked local item of a parsed checklist (no `@` targets) that is
/// not followed by a more deeply indented item is a leaf, and keeps the
/// checklist from being done, whatever the dependency states.
pub proof fn law_unchecked_leaf_blocks_checklist(content: Seq<char>, m: Map<Seq<char>, bool>, i: int)
    requires
        0 <= i < checklist_items(content).len(),
        checklist_items(content)[i].targets.len() == 0,
        !checklist_items(content)[i].checked,
        i + 1 == checklist_items(content).len() || checklist_items(content)[i + 1].indent
            <= checklist_items(content)[i].indent,
    ensures
        !checklist_done(content, m),
        !note_done_with_deps(content, m),
        !note_done(content),
{
    let items = checklist_items(content);
    assert(items.len() > 0);
    assert(i + 1 >= items.len() || items[i + 1].indent <= items[i].indent);
    assert(!crate::reconcile::writeback::model_truth(items[i], m));
    assert(!crate::reconcile::writeback::model_truth(items[i], Map::empty()));
}

/// A checklist is done when every leaf holds: every item not followed by a
/// more deeply indented item is checked (a local item) or has all its
/// targets done (a ref item).
pub proof fn law_all_leaves_hold_checklist_done(content: Seq<char>, m: Map<Seq<char>, bool>)
    requires
        forall|i: int|
            0 <= i < checklist_items(content).len() && (i + 1 == checklist_items(content).len()
                || checklist_items(content)[i + 1].indent <= checklist_items(content)[i].indent) ==> if (
            #[trigger] checklist_items(content)[i]).targets.len() == 0 {
                checklist_items(content)[i].checked
            } else {
                forall|k: int|
                    0 <= k < checklist_items(content)[i].targets.len() ==> m.contains_key(
                        #[trigger] checklist_items(content)[i].targets[k].id,
                    ) && m[checklist_items(content)[i].targets[k].id]
            },
    ensures
        checklist_done(content, m),
        note_header(content) is Some ==> note_done_with_deps(content, m),
{
    let items = checklist_items(content);
    assert forall|i: int|
        0 <= i < items.len() && (i + 1 >= items.len() || items[i + 1].indent <= items[i].indent) implies #[trigger] crate::reconcile::writeback::model_truth(
        items[i],
        m,
    ) by {
        assert(i + 1 == items.len() || items[i + 1].indent <= items[i].indent);
    }
}

/// Of checklist items: an unchecked local item not followed by a more
/// deeply indented item keeps them from being done; with at least one item,
/// they are done when every item not followed by a more deeply indented
/// item is checked (local) or has all its targets done (ref).
pub proof fn law_items_done_by_leaves(items: Seq<ChecklistItem>, m: Map<Seq<char>, bool>)
    ensures
        forall|i: int|
            0 <= i < items.len() && (i + 1 == items.len() || items[i + 1].indent <= items[i].indent) && (
            #[trigger] items[i]).kind is Local && !items[i].checked ==> !items_done(items, m),
        items.len() > 0 && (forall|i: int|
            0 <= i < items.len() && (i + 1 == items.len() || items[i + 1].indent <= items[i].indent) ==> match (
            #[trigger] items[i]).kind {
                ChecklistItemKind::Local => items[i].checked,
                ChecklistItemKind::Ref { targets } => forall|k: int|
                    0 <= k < targets@.len() ==> m.contains_key(#[trigger] targets@[k].target_id@) && m[targets@[k].target_id@],
            }) ==> items_done(items, m),
        items.len() == 0 ==> !items_done(items, m),
        forall|i: int, k: int|
            #![trigger items[i].kind->targets@[k]]
            0 <= i < items.len() && (i + 1 == items.len() || items[i + 1].indent <= items[i].indent) && (
            items[i]).kind is Ref && 0 <= k < items[i].kind->targets@.len() && !(m.contains_key(
            items[i].kind->targets@[k].target_id@) && m[items[i].kind->targets@[k].target_id@]) ==> !items_done(items, m),
{
    assert forall|i: int, k: int|
        #![trigger items[i].kind->targets@[k]]
        0 <= i < items.len() && (i + 1 == items.len() || items[i + 1].indent <= items[i].indent) && (
        items[i]).kind is Ref && 0 <= k < items[i].kind->targets@.len() && !(m.contains_key(
        items[i].kind->targets@[k].target_id@) && m[items[i].kind->targets@[k].target_id@]) implies !items_done(items, m) by {
        assert(crate::parser::is_leaf_at(items, i));
        let targets = items[i].kind->targets;
        assert(!crate::parser::dep_done(m, targets@[k].target_id@));
        assert(!crate::parser::item_truth(items[i], m));
    }
    assert forall|i: int|
        0 <= i < items.len() && (i + 1 == items.len() || items[i + 1].indent <= items[i].indent) && (
        #[trigger] items[i]).kind is Local && !items[i].checked implies !items_done(items, m) by {
        assert(crate::parser::is_leaf_at(items, i));
    }
    if items.len() > 0 && (forall|i: int|
        0 <= i < items.len() && (i + 1 == items.len() || items[i + 1].indent <= items[i].indent) ==> match (
        #[trigger] items[i]).kind {
            ChecklistItemKind::Local => items[i].checked,
            ChecklistItemKind::Ref { targets } => forall|k: int|
                0 <= k < targets@.len() ==> m.contains_key(#[trigger] targets@[k].target_id@) && m[targets@[k].target_id@],
        }) {
        assert forall|i: int| 0 <= i < items.len() && crate::parser::is_leaf_at(items, i) implies crate::parser::item_truth(
            #[trigger] items[i],
            m,
        ) by {
            assert(i + 1 == items.len() || items[i + 1].indent <= items[i].indent);
        }
    }
}

// ---------------------------------------------------------------------------
// DSL builtins
// ---------------------------------------------------------------------------

/// `(- a b)` on two integers is `a` minus `b` (first argument minus second),
/// and `(+ a b)` is their sum, where the result fits in an `i64`.
pub proof fn law_int_arithmetic(c: Ctx, a: i64, b: i64)
    ensures
        i64::MIN <= a - b <= i64::MAX ==> builtin_value(c, "-"@, seq![ValueModel::Int(a), ValueModel::Int(b)])
            == Ok::<ValueModel, EvalErrorModel>(ValueModel::Int((a - b) as i64)),
        i64::MIN <= a + b <= i64::MAX ==> builtin_value(c, "+"@, seq![ValueModel::Int(a), ValueModel::Int(b)])
            == Ok::<ValueModel, EvalErrorModel>(ValueModel::Int((a + b) as i64)),
{
    reveal_strlit("-");
    reveal_strlit("+");
    reveal_strlit("empty?");
    reveal_strlit("all_done");
    reveal_strlit("all_done?");
    reveal_strlit("aggregate_status");
    reveal_strlit("eq?");
    reveal_strlit("not");
    reveal_strlit("done?");
    reveal_strlit("todo?");
    reveal_strlit("wip?");
    reveal_strlit("none?");
    reveal_strlit("observe_checked");
    reveal_strlit("targets");
    reveal_strlit("children");
    reveal_strlit("parent");
    reveal_strlit("owner_note");
    reveal_strlit("local_checkboxes");
    reveal_strlit("backlinks");
    assert("-"@ != "empty?"@) by {
        assert("-"@.len() != "empty?"@.len());
    }
    assert("-"@ != "all_done"@) by {
        assert("-"@.len() != "all_done"@.len());
    }
    assert("-"@ != "all_done?"@) by {
        assert("-"@.len() != "all_done?"@.len());
    }
    assert("-"@ != "aggregate_status"@) by {
        assert("-"@.len() != "aggregate_status"@.len());
    }
    assert("-"@ != "eq?"@) by {
        assert("-"@.len() != "eq?"@.len());
    }
    assert("-"@ != "not"@) by {
        assert("-"@.len() != "not"@.len());
    }
    assert("-"@ != "done?"@) by {
        assert("-"@.len() != "done?"@.len());
    }
    assert("-"@ != "todo?"@) by {
        assert("-"@.len() != "todo?"@.len());
    }
    assert("-"@ != "wip?"@) by {
        assert("-"@.len() != "wip?"@.len());
    }
    assert("-"@ != "none?"@) by {
        assert("-"@.len() != "none?"@.len());
    }
    assert("-"@ != "observe_checked"@) by {
        assert("-"@.len() != "observe_checked"@.len());
    }
    assert("-"@ != "targets"@) by {
        assert("-"@.len() != "targets"@.len());
    }
    assert("-"@ != "children"@) by {
        assert("-"@.len() != "children"@.len());
    }
    assert("-"@ != "parent"@) by {
        assert("-"@.len() != "parent"@.len());
    }
    assert("-"@ != "owner_note"@) by {
        assert("-"@.len() != "owner_note"@.len());
    }
    assert("-"@ != "local_checkboxes"@) by {
        assert("-"@.len() != "local_checkboxes"@.len());
    }
    assert("-"@ != "backlinks"@) by {
        assert("-"@.len() != "backlinks"@.len());
    }
    assert("+"@ != "empty?"@) by {
        assert("+"@.len() != "empty?"@.len());
    }
    assert("+"@ != "all_done"@) by {
        assert("+"@.len() != "all_done"@.len());
    }
    assert("+"@ != "all_done?"@) by {
        assert("+"@.len() != "all_done?"@.len());
    }
    assert("+"@ != "aggregate_status"@) by {
        assert("+"@.len() != "aggregate_status"@.len());
    }
    assert("+"@ != "eq?"@) by {
        assert("+"@.len() != "eq?"@.len());
    }
    assert("+"@ != "not"@) by {
        assert("+"@.len() != "not"@.len());
    }
    assert("+"@ != "done?"@) by {
        assert("+"@.len() != "done?"@.len());
    }
    assert("+"@ != "todo?"@) by {
        assert("+"@.len() != "todo?"@.len());
    }
    assert("+"@ != "wip?"@) by {
        assert("+"@.len() != "wip?"@.len());
    }
    assert("+"@ != "none?"@) by {
        assert("+"@.len() != "none?"@.len());
    }
    assert("+"@ != "observe_checked"@) by {
        assert("+"@.len() != "observe_checked"@.len());
    }
    assert("+"@ != "targets"@) by {
        assert("+"@.len() != "targets"@.len());
    }
    assert("+"@ != "children"@) by {
        assert("+"@.len() != "children"@.len());
    }
    assert("+"@ != "parent"@) by {
        assert("+"@.len() != "parent"@.len());
    }
    assert("+"@ != "owner_note"@) by {
        assert("+"@.len() != "owner_note"@.len());
    }
    assert("+"@ != "local_checkboxes"@) by {
        assert("+"@.len() != "local_checkboxes"@.len());
    }
    assert("+"@ != "backlinks"@) by {
        assert("+"@.len() != "backlinks"@.len());
    }
    assert("-"@ != "+"@) by {
        assert("-"@[0] != "+"@[0]);
    }
    let args_sub = seq![ValueModel::Int(a), ValueModel::Int(b)];
    assert(args_sub.len() == 2 && args_sub[0] == ValueModel::Int(a) && args_sub[1] == ValueModel::Int(b));
}

/// The comparisons `<`, `>`, `<=`, `>=` on two integers compare the first
/// argument with the second.
pub proof fn law_int_comparisons(c: Ctx, a: i64, b: i64)
    ensures
        builtin_value(c, "<"@, seq![ValueModel::Int(a), ValueModel::Int(b)]) == Ok::<ValueModel, EvalErrorModel>(
            ValueModel::Bool(a < b),
        ),
        builtin_value(c, ">"@, seq![ValueModel::Int(a), ValueModel::Int(b)]) == Ok::<ValueModel, EvalErrorModel>(
            ValueModel::Bool(a > b),
        ),
        builtin_value(c, "<="@, seq![ValueModel::Int(a), ValueModel::Int(b)]) == Ok::<ValueModel, EvalErrorModel>(
            ValueModel::Bool(a <= b),
        ),
        builtin_value(c, ">="@, seq![ValueModel::Int(a), ValueModel::Int(b)]) == Ok::<ValueModel, EvalErrorModel>(
            ValueModel::Bool(a >= b),
        ),
{
    reveal_strlit("empty?");
    reveal_strlit("all_done");
    reveal_strlit("all_done?");
    reveal_strlit("aggregate_status");
    reveal_strlit("eq?");
    reveal_strlit("not");
    reveal_strlit("done?");
    reveal_strlit("todo?");
    reveal_strlit("wip?");
    reveal_strlit("none?");
    reveal_strlit("observe_checked");
    reveal_strlit("targets");
    reveal_strlit("children");
    reveal_strlit("parent");
    reveal_strlit("owner_note");
    reveal_strlit("local_checkboxes");
    reveal_strlit("backlinks");
    reveal_strlit("+");
    reveal_strlit("-");
    reveal_strlit("<");
    reveal_strlit(">");
    reveal_strlit("<=");
    reveal_strlit(">=");
    assert("<"@ != "empty?"@) by {
        assert("<"@.len() != "empty?"@.len() || "<"@[0] != "empty?"@[0]);
    }
    assert("<"@ != "all_done"@) by {
        assert("<"@.len() != "all_done"@.len() || "<"@[0] != "all_done"@[0]);
    }
    assert("<"@ != "all_done?"@) by {
        assert("<"@.len() != "all_done?"@.len() || "<"@[0] != "all_done?"@[0]);
    }
    assert("<"@ != "aggregate_status"@) by {
        assert("<"@.len() != "aggregate_status"@.len() || "<"@[0] != "aggregate_status"@[0]);
    }
    assert("<"@ != "eq?"@) by {
        assert("<"@.len() != "eq?"@.len() || "<"@[0] != "eq?"@[0]);
    }
    assert("<"@ != "not"@) by {
        assert("<"@.len() != "not"@.len() || "<"@[0] != "not"@[0]);
    }
    assert("<"@ != "done?"@) by {
        assert("<"@.len() != "done?"@.len() || "<"@[0] != "done?"@[0]);
    }
    assert("<"@ != "todo?"@) by {
        assert("<"@.len() != "todo?"@.len() || "<"@[0] != "todo?"@[0]);
    }
    assert("<"@ != "wip?"@) by {
        assert("<"@.len() != "wip?"@.len() || "<"@[0] != "wip?"@[0]);
    }
    assert("<"@ != "none?"@) by {
        assert("<"@.len() != "none?"@.len() || "<"@[0] != "none?"@[0]);
    }
    assert("<"@ != "observe_checked"@) by {
        assert("<"@.len() != "observe_checked"@.len() || "<"@[0] != "observe_checked"@[0]);
    }
    assert("<"@ != "targets"@) by {
        assert("<"@.len() != "targets"@.len() || "<"@[0] != "targets"@[0]);
    }
    assert("<"@ != "children"@) by {
        assert("<"@.len() != "children"@.len() || "<"@[0] != "children"@[0]);
    }
    assert("<"@ != "parent"@) by {
        assert("<"@.len() != "parent"@.len() || "<"@[0] != "parent"@[0]);
    }
    assert("<"@ != "owner_note"@) by {
        assert("<"@.len() != "owner_note"@.len() || "<"@[0] != "owner_note"@[0]);
    }
    assert("<"@ != "local_checkboxes"@) by {
        assert("<"@.len() != "local_checkboxes"@.len() || "<"@[0] != "local_checkboxes"@[0]);
    }
    assert("<"@ != "backlinks"@) by {
        assert("<"@.len() != "backlinks"@.len() || "<"@[0] != "backlinks"@[0]);
    }
    assert("<"@ != "+"@) by {
        assert("<"@.len() != "+"@.len() || "<"@[0] != "+"@[0]);
    }
    assert("<"@ != "-"@) by {
        assert("<"@.len() != "-"@.len() || "<"@[0] != "-"@[0]);
    }
    assert("<"@ != ">"@) by {
        assert("<"@.len() != ">"@.len() || "<"@[0] != ">"@[0]);
    }
    assert("<"@ != "<="@) by {
        assert("<"@.len() != "<="@.len() || "<"@[0] != "<="@[0]);
    }
    assert("<"@ != ">="@) by {
        assert("<"@.len() != ">="@.len() || "<"@[0] != ">="@[0]);
    }
    assert(">"@ != "empty?"@) by {
        assert(">"@.len() != "empty?"@.len() || ">"@[0] != "empty?"@[0]);
    }
    assert(">"@ != "all_done"@) by {
        assert(">"@.len() != "all_done"@.len() || ">"@[0] != "all_done"@[0]);
    }
    assert(">"@ != "all_done?"@) by {
        assert(">"@.len() != "all_done?"@.len() || ">"@[0] != "all_done?"@[0]);
    }
    assert(">"@ != "aggregate_status"@) by {
        assert(">"@.len() != "aggregate_status"@.len() || ">"@[0] != "aggregate_status"@[0]);
    }
    assert(">"@ != "eq?"@) by {
        assert(">"@.len() != "eq?"@.len() || ">"@[0] != "eq?"@[0]);
    }
    assert(">"@ != "not"@) by {
        assert(">"@.len() != "not"@.len() || ">"@[0] != "not"@[0]);
    }
    assert(">"@ != "done?"@) by {
        assert(">"@.len() != "done?"@.len() || ">"@[0] != "done?"@[0]);
    }
    assert(">"@ != "todo?"@) by {
        assert(">"@.len() != "todo?"@.len() || ">"@[0] != "todo?"@[0]);
    }
    assert(">"@ != "wip?"@) by {
        assert(">"@.len() != "wip?"@.len() || ">"@[0] != "wip?"@[0]);
    }
    assert(">"@ != "none?"@) by {
        assert(">"@.len() != "none?"@.len() || ">"@[0] != "none?"@[0]);
    }
    assert(">"@ != "observe_checked"@) by {
        assert(">"@.len() != "observe_checked"@.len() || ">"@[0] != "observe_checked"@[0]);
    }
    assert(">"@ != "targets"@) by {
        assert(">"@.len() != "targets"@.len() || ">"@[0] != "targets"@[0]);
    }
    assert(">"@ != "children"@) by {
        assert(">"@.len() != "children"@.len() || ">"@[0] != "children"@[0]);
    }
    assert(">"@ != "parent"@) by {
        assert(">"@.len() != "parent"@.len() || ">"@[0] != "parent"@[0]);
    }
    assert(">"@ != "owner_note"@) by {
        assert(">"@.len() != "owner_note"@.len() || ">"@[0] != "owner_note"@[0]);
    }
    assert(">"@ != "local_checkboxes"@) by {
        assert(">"@.len() != "local_checkboxes"@.len() || ">"@[0] != "local_checkboxes"@[0]);
    }
    assert(">"@ != "backlinks"@) by {
        assert(">"@.len() != "backlinks"@.len() || ">"@[0] != "backlinks"@[0]);
    }
    assert(">"@ != "+"@) by {
        assert(">"@.len() != "+"@.len() || ">"@[0] != "+"@[0]);
    }
    assert(">"@ != "-"@) by {
        assert(">"@.len() != "-"@.len() || ">"@[0] != "-"@[0]);
    }
    assert(">"@ != "<"@) by {
        assert(">"@.len() != "<"@.len() || ">"@[0] != "<"@[0]);
    }
    assert(">"@ != "<="@) by {
        assert(">"@.len() != "<="@.len() || ">"@[0] != "<="@[0]);
    }
    assert(">"@ != ">="@) by {
        assert(">"@.len() != ">="@.len() || ">"@[0] != ">="@[0]);
    }
    assert("<="@ != "empty?"@) by {
        assert("<="@.len() != "empty?"@.len() || "<="@[0] != "empty?"@[0]);
    }
    assert("<="@ != "all_done"@) by {
        assert("<="@.len() != "all_done"@.len() || "<="@[0] != "all_done"@[0]);
    }
    assert("<="@ != "all_done?"@) by {
        assert("<="@.len() != "all_done?"@.len() || "<="@[0] != "all_done?"@[0]);
    }
    assert("<="@ != "aggregate_status"@) by {
        assert("<="@.len() != "aggregate_status"@.len() || "<="@[0] != "aggregate_status"@[0]);
    }
    assert("<="@ != "eq?"@) by {
        assert("<="@.len() != "eq?"@.len() || "<="@[0] != "eq?"@[0]);
    }
    assert("<="@ != "not"@) by {
        assert("<="@.len() != "not"@.len() || "<="@[0] != "not"@[0]);
    }
    assert("<="@ != "done?"@) by {
        assert("<="@.len() != "done?"@.len() || "<="@[0] != "done?"@[0]);
    }
    assert("<="@ != "todo?"@) by {
        assert("<="@.len() != "todo?"@.len() || "<="@[0] != "todo?"@[0]);
    }
    assert("<="@ != "wip?"@) by {
        assert("<="@.len() != "wip?"@.len() || "<="@[0] != "wip?"@[0]);
    }
    assert("<="@ != "none?"@) by {
        assert("<="@.len() != "none?"@.len() || "<="@[0] != "none?"@[0]);
    }
    assert("<="@ != "observe_checked"@) by {
        assert("<="@.len() != "observe_checked"@.len() || "<="@[0] != "observe_checked"@[0]);
    }
    assert("<="@ != "targets"@) by {
        assert("<="@.len() != "targets"@.len() || "<="@[0] != "targets"@[0]);
    }
    assert("<="@ != "children"@) by {
        assert("<="@.len() != "children"@.len() || "<="@[0] != "children"@[0]);
    }
    assert("<="@ != "parent"@) by {
        assert("<="@.len() != "parent"@.len() || "<="@[0] != "parent"@[0]);
    }
    assert("<="@ != "owner_note"@) by {
        assert("<="@.len() != "owner_note"@.len() || "<="@[0] != "owner_note"@[0]);
    }
    assert("<="@ != "local_checkboxes"@) by {
        assert("<="@.len() != "local_checkboxes"@.len() || "<="@[0] != "local_checkboxes"@[0]);
    }
    assert("<="@ != "backlinks"@) by {
        assert("<="@.len() != "backlinks"@.len() || "<="@[0] != "backlinks"@[0]);
    }
    assert("<="@ != "+"@) by {
        assert("<="@.len() != "+"@.len() || "<="@[0] != "+"@[0]);
    }
    assert("<="@ != "-"@) by {
        assert("<="@.len() != "-"@.len() || "<="@[0] != "-"@[0]);
    }
    assert("<="@ != "<"@) by {
        assert("<="@.len() != "<"@.len() || "<="@[0] != "<"@[0]);
    }
    assert("<="@ != ">"@) by {
        assert("<="@.len() != ">"@.len() || "<="@[0] != ">"@[0]);
    }
    assert("<="@ != ">="@) by {
        assert("<="@.len() != ">="@.len() || "<="@[0] != ">="@[0]);
    }
    assert(">="@ != "empty?"@) by {
        assert(">="@.len() != "empty?"@.len() || ">="@[0] != "empty?"@[0]);
    }
    assert(">="@ != "all_done"@) by {
        assert(">="@.len() != "all_done"@.len() || ">="@[0] != "all_done"@[0]);
    }
    assert(">="@ != "all_done?"@) by {
        assert(">="@.len() != "all_done?"@.len() || ">="@[0] != "all_done?"@[0]);
    }
    assert(">="@ != "aggregate_status"@) by {
        assert(">="@.len() != "aggregate_status"@.len() || ">="@[0] != "aggregate_status"@[0]);
    }
    assert(">="@ != "eq?"@) by {
        assert(">="@.len() != "eq?"@.len() || ">="@[0] != "eq?"@[0]);
    }
    assert(">="@ != "not"@) by {
        assert(">="@.len() != "not"@.len() || ">="@[0] != "not"@[0]);
    }
    assert(">="@ != "done?"@) by {
        assert(">="@.len() != "done?"@.len() || ">="@[0] != "done?"@[0]);
    }
    assert(">="@ != "todo?"@) by {
        assert(">="@.len() != "todo?"@.len() || ">="@[0] != "todo?"@[0]);
    }
    assert(">="@ != "wip?"@) by {
        assert(">="@.len() != "wip?"@.len() || ">="@[0] != "wip?"@[0]);
    }
    assert(">="@ != "none?"@) by {
        assert(">="@.len() != "none?"@.len() || ">="@[0] != "none?"@[0]);
    }
    assert(">="@ != "observe_checked"@) by {
        assert(">="@.len() != "observe_checked"@.len() || ">="@[0] != "observe_checked"@[0]);
    }
    assert(">="@ != "targets"@) by {
        assert(">="@.len() != "targets"@.len() || ">="@[0] != "targets"@[0]);
    }
    assert(">="@ != "children"@) by {
        assert(">="@.len() != "children"@.len() || ">="@[0] != "children"@[0]);
    }
    assert(">="@ != "parent"@) by {
        assert(">="@.len() != "parent"@.len() || ">="@[0] != "parent"@[0]);
    }
    assert(">="@ != "owner_note"@) by {
        assert(">="@.len() != "owner_note"@.len() || ">="@[0] != "owner_note"@[0]);
    }
    assert(">="@ != "local_checkboxes"@) by {
        assert(">="@.len() != "local_checkboxes"@.len() || ">="@[0] != "local_checkboxes"@[0]);
    }
    assert(">="@ != "backlinks"@) by {
        assert(">="@.len() != "backlinks"@.len() || ">="@[0] != "backlinks"@[0]);
    }
    assert(">="@ != "+"@) by {
        assert(">="@.len() != "+"@.len() || ">="@[0] != "+"@[0]);
    }
    assert(">="@ != "-"@) by {
        assert(">="@.len() != "-"@.len() || ">="@[0] != "-"@[0]);
    }
    assert(">="@ != "<"@) by {
        assert(">="@.len() != "<"@.len() || ">="@[0] != "<"@[0]);
    }
    assert(">="@ != ">"@) by {
        assert(">="@.len() != ">"@.len() || ">="@[0] != ">"@[0]);
    }
    assert(">="@ != "<="@) by {
        assert(">="@.len() != "<="@.len() || ">="@[0] != "<="@[0]);
    }
    let args = seq![ValueModel::Int(a), ValueModel::Int(b)];
    assert(args.len() == 2 && args[0] == ValueModel::Int(a) && args[1] == ValueModel::Int(b));
}

proof fn lemma_all_bool(ts: Seq<Type>, k: int)
    requires
        0 <= k <= ts.len(),
    ensures
        (forall|j: int| k <= j < ts.len() ==> #[trigger] ts[j] == Type::Bool || ts[j] == Type::Any) ==> crate::reconcile::typecheck::all_bool(
            ts,
            k,
        ) is Ok,
        (exists|j: int| k <= j < ts.len() && #[trigger] ts[j] == Type::Int) ==> crate::reconcile::typecheck::all_bool(ts, k) is Err,
    decreases ts.len() - k,
{
    if k < ts.len() {
        lemma_all_bool(ts, k + 1);
        if exists|j: int| k <= j < ts.len() && #[trigger] ts[j] == Type::Int {
            let j = choose|j: int| k <= j < ts.len() && #[trigger] ts[j] == Type::Int;
            if j > k {
                assert(exists|j2: int| k + 1 <= j2 < ts.len() && #[trigger] ts[j2] == Type::Int);
            }
        }
    }
}

/// `and` and `or` over arguments that are all `Bool` (or not yet known) have
/// type `Bool`; with an `Int` argument they are rejected.
pub proof fn law_and_or_are_bool(args: Seq<Type>, arg_exprs: Seq<ExprModel>, kinds: Map<Seq<char>, Type>)
    ensures
        (forall|k: int| 0 <= k < args.len() ==> #[trigger] args[k] == Type::Bool || args[k] == Type::Any) ==> {
            &&& builtin_type("and"@, args, arg_exprs, kinds) == Ok::<Type, crate::reconcile::typecheck::TypeErrorModel>(Type::Bool)
            &&& builtin_type("or"@, args, arg_exprs, kinds) == Ok::<Type, crate::reconcile::typecheck::TypeErrorModel>(Type::Bool)
        },
        (exists|k: int| 0 <= k < args.len() && #[trigger] args[k] == Type::Int) ==> {
            &&& builtin_type("and"@, args, arg_exprs, kinds) is Err
            &&& builtin_type("or"@, args, arg_exprs, kinds) is Err
        },
{
    reveal_strlit("empty?");
    reveal_strlit("length");
    reveal_strlit("all_done");
    reveal_strlit("all_done?");
    reveal_strlit("aggregate_status");
    reveal_strlit("eq?");
    reveal_strlit("not");
    reveal_strlit("and");
    reveal_strlit("or");
    assert("and"@ != "empty?"@) by {
        assert("and"@.len() != "empty?"@.len() || "and"@[0] != "empty?"@[0]);
    }
    assert("and"@ != "length"@) by {
        assert("and"@.len() != "length"@.len() || "and"@[0] != "length"@[0]);
    }
    assert("and"@ != "all_done"@) by {
        assert("and"@.len() != "all_done"@.len() || "and"@[0] != "all_done"@[0]);
    }
    assert("and"@ != "all_done?"@) by {
        assert("and"@.len() != "all_done?"@.len() || "and"@[0] != "all_done?"@[0]);
    }
    assert("and"@ != "aggregate_status"@) by {
        assert("and"@.len() != "aggregate_status"@.len() || "and"@[0] != "aggregate_status"@[0]);
    }
    assert("and"@ != "eq?"@) by {
        assert("and"@.len() != "eq?"@.len() || "and"@[0] != "eq?"@[0]);
    }
    assert("and"@ != "not"@) by {
        assert("and"@.len() != "not"@.len() || "and"@[0] != "not"@[0]);
    }
    assert("or"@ != "empty?"@) by {
        assert("or"@.len() != "empty?"@.len() || "or"@[0] != "empty?"@[0]);
    }
    assert("or"@ != "length"@) by {
        assert("or"@.len() != "length"@.len() || "or"@[0] != "length"@[0]);
    }
    assert("or"@ != "all_done"@) by {
        assert("or"@.len() != "all_done"@.len() || "or"@[0] != "all_done"@[0]);
    }
    assert("or"@ != "all_done?"@) by {
        assert("or"@.len() != "all_done?"@.len() || "or"@[0] != "all_done?"@[0]);
    }
    assert("or"@ != "aggregate_status"@) by {
        assert("or"@.len() != "aggregate_status"@.len() || "or"@[0] != "aggregate_status"@[0]);
    }
    assert("or"@ != "eq?"@) by {
        assert("or"@.len() != "eq?"@.len() || "or"@[0] != "eq?"@[0]);
    }
    assert("or"@ != "not"@) by {
        assert("or"@.len() != "not"@.len() || "or"@[0] != "not"@[0]);
    }
    lemma_all_bool(args, 0);
}

// ---------------------------------------------------------------------------
// Ref sync
// ---------------------------------------------------------------------------

/// The ref sync rewrites a note line by line: the result is the note
/// unchanged, or its lines `out` joined again (with the note's final
/// newline). A todo line outside code fences that names `@ID`s (with an
/// ASCII-blank indent) ends up checked when every one of its IDs is done in
/// the dependency states, and unchecked when any of them is not; every
/// other line is kept as it was.
pub proof fn law_ref_sync_checks_when_all_done(content: Seq<char>, m: Map<Seq<char>, bool>)
    ensures
        exists|out: Seq<Seq<char>>|
            #![trigger out.len()]
            {
                &&& out.len() == lines(content).len()
                &&& (ref_sync(content, m) == rejoin(out, ends_with_newline(content)) || (ref_sync(content, m) == content
                    && out == lines(content)))
                &&& forall|i: int|
                    #![trigger out[i]]
                    0 <= i < out.len() ==> {
                        let l = lines(content)[i];
                        let ids = line_ids(l);
                        if outside_fence(lines(content), i) && is_todo_line(l) && ids.len() > 0 {
                            indent_bytes(l) == ws_prefix_len(l) && trim_start(l).len() >= 5 ==> todo_state(out[i]) == Some(
                                if (forall|k: int| 0 <= k < ids.len() ==> m.contains_key(#[trigger] ids[k]) && m[ids[k]]) {
                                    'x'
                                } else {
                                    ' '
                                },
                            )
                        } else {
                            out[i] == l
                        }
                    }
            },
{
    let ls = lines(content);
    let edits = Seq::new(ls.len(), |i: int| sync_edit(ls, i, m));
    let out = apply_edits(ls, edits);
    assert forall|i: int| #![trigger out[i]] 0 <= i < out.len() implies {
        let l = lines(content)[i];
        let ids = line_ids(l);
        if outside_fence(lines(content), i) && is_todo_line(l) && ids.len() > 0 {
            indent_bytes(l) == ws_prefix_len(l) && trim_start(l).len() >= 5 ==> todo_state(out[i]) == Some(
                if (forall|k: int| 0 <= k < ids.len() ==> m.contains_key(#[trigger] ids[k]) && m[ids[k]]) {
                    'x'
                } else {
                    ' '
                },
            )
        } else {
            out[i] == l
        }
    } by {
        let l = ls[i];
        let ids = line_ids(l);
        assert(edits[i] == sync_edit(ls, i, m));
        if outside_fence(ls, i) && is_todo_line(l) && ids.len() > 0 {
            let st = if (forall|k: int| 0 <= k < ids.len() ==> m.contains_key(#[trigger] ids[k]) && m[ids[k]]) {
                'x'
            } else {
                ' '
            };
            assert(st == if forall|k: int| 0 <= k < ids.len() ==> crate::parser::dep_done(m, #[trigger] ids[k]) {
                'x'
            } else {
                ' '
            });
            if indent_bytes(l) == ws_prefix_len(l) && trim_start(l).len() >= 5 && todo_state(l) != Some(st) {
                crate::laws::law_replace_then_read_state(l, st);
            }
        }
    }
    if exists|i: int| 0 <= i < ls.len() && #[trigger] edits[i] is Some {
        assert(ref_sync(content, m) == rejoin(out, ends_with_newline(content)));
    } else {
        assert(out =~= ls) by {
            assert forall|i: int| 0 <= i < ls.len() implies out[i] == ls[i] by {
                assert(!(edits[i] is Some));
            }
        }
    }
    assert(out.len() == lines(content).len());
}

// ---------------------------------------------------------------------------
// Links
// ---------------------------------------------------------------------------

/// Dropping the note's own ID keeps exactly the other IDs.
pub proof fn law_drop_self_keeps_others(ids: Seq<Seq<char>>, self_id: Option<Seq<char>>)
    ensures
        forall|x: Seq<char>| #[trigger] drop_self(ids, self_id).contains(x) <==> (ids.contains(x) && self_id != Some(x)),
    decreases ids.len(),
{
    if ids.len() > 0 {
        law_drop_self_keeps_others(ids.drop_last(), self_id);
        let p = drop_self(ids.drop_last(), self_id);
        let r = drop_self(ids, self_id);
        assert forall|x: Seq<char>| #[trigger] r.contains(x) <==> (ids.contains(x) && self_id != Some(x)) by {
            if r.contains(x) {
                let y = choose|y: int| 0 <= y < r.len() && r[y] == x;
                if y < p.len() {
                    assert(p[y] == x);
                    assert(p.contains(x));
                    let z = choose|z: int| 0 <= z < ids.drop_last().len() && ids.drop_last()[z] == x;
                    assert(ids[z] == x);
                } else {
                    assert(x == ids.last());
                    assert(ids[ids.len() - 1] == x);
                }
            }
            if ids.contains(x) && self_id != Some(x) {
                let z = choose|z: int| 0 <= z < ids.len() && ids[z] == x;
                if z < ids.len() - 1 {
                    assert(ids.drop_last()[z] == x);
                    assert(p.contains(x));
                    let y = choose|y: int| 0 <= y < p.len() && p[y] == x;
                    if self_id == Some(ids.last()) {
                        assert(r[y] == x);
                    } else {
                        assert(r[y] == x);
                    }
                } else {
                    assert(r[r.len() - 1] == x);
                }
            }
        }
    }
}

proof fn lemma_segs_angle_ids(line: Seq<char>, segs: Seq<(int, int)>, self_id: Option<Seq<char>>, j: int, x: Seq<char>)
    requires
        0 <= j < segs.len(),
        drop_self(segment_angle_ids(line, segs[j].0, segs[j].1), self_id).contains(x),
    ensures
        segs_angle_ids(line, segs, self_id).contains(x),
    decreases segs.len(),
{
    let pre = segs_angle_ids(line, segs.drop_last(), self_id);
    let last = drop_self(segment_angle_ids(line, segs.last().0, segs.last().1), self_id);
    let all = segs_angle_ids(line, segs, self_id);
    assert(all == pre + last);
    if j == segs.len() - 1 {
        let y = choose|y: int| 0 <= y < last.len() && last[y] == x;
        assert(all[pre.len() + y] == x);
    } else {
        assert(segs.drop_last()[j] == segs[j]);
        lemma_segs_angle_ids(line, segs.drop_last(), self_id, j, x);
        let y = choose|y: int| 0 <= y < pre.len() && pre[y] == x;
        assert(all[y] == x);
    }
}

proof fn lemma_links_upto_grows(ls: Seq<Seq<char>>, n: int, k: int, self_id: Option<Seq<char>>, x: Seq<char>)
    requires
        0 <= n <= k,
        links_upto(ls, n, self_id).0.contains(x),
    ensures
        links_upto(ls, k, self_id).0.contains(x),
    decreases k - n,
{
    if k > n {
        lemma_links_upto_grows(ls, n, k - 1, self_id, x);
        let pre = links_upto(ls, k - 1, self_id).0;
        let cur = links_upto(ls, k, self_id).0;
        let y = choose|y: int| 0 <= y < pre.len() && pre[y] == x;
        assert(cur[y] == x);
    }
}

/// The note's own title ID, when it has a header.
pub open spec fn own_id(content: Seq<char>) -> Option<Seq<char>> {
    match note_header(content) {
        Some(h) => Some(h.id),
        None => None,
    }
}

/// Every `<ID>` link outside comments and fences (a match in a range that
/// the line scan keeps, given the comment and fence state after the lines
/// before it) whose ID is not the note's own title ID is among the link IDs.
pub proof fn law_angle_links_found(content: Seq<char>, n: int, j: int, p: int)
    requires
        0 <= n < lines(content).len(),
        0 <= j < link_scan(
            lines(content)[n],
            0,
            links_upto(lines(content), n, own_id(content)).1,
            links_upto(lines(content), n, own_id(content)).2,
        ).0.len(),
        ({
            let ls = lines(content);
            let sid = own_id(content);
            let st = links_upto(ls, n, sid);
            let seg = link_scan(ls[n], 0, st.1, st.2).0[j];
            let s = ls[n].subrange(seg.0, seg.1);
            &&& id_matches(s, '<', true).contains(p)
            &&& sid != Some(s.subrange(p + 1, p + 11))
        }),
    ensures
        ({
            let ls = lines(content);
            let sid = own_id(content);
            let seg = link_scan(ls[n], 0, links_upto(ls, n, sid).1, links_upto(ls, n, sid).2).0[j];
            link_ids(content).contains(ls[n].subrange(seg.0, seg.1).subrange(p + 1, p + 11))
        }),
{
    let ls = lines(content);
    let sid = own_id(content);
    let st = links_upto(ls, n, sid);
    let segs = link_scan(ls[n], 0, st.1, st.2).0;
    let seg = segs[j];
    let s = ls[n].subrange(seg.0, seg.1);
    let id = s.subrange(p + 1, p + 11);
    let ms = id_matches(s, '<', true);
    let q = choose|q: int| 0 <= q < ms.len() && ms[q] == p;
    let all = segment_angle_ids(ls[n], seg.0, seg.1);
    assert(all[q] == id);
    law_drop_self_keeps_others(all, sid);
    assert(drop_self(all, sid).contains(id));
    lemma_segs_angle_ids(ls[n], segs, sid, j, id);
    let nxt = links_upto(ls, n + 1, sid).0;
    let part = segs_angle_ids(ls[n], segs, sid);
    assert(nxt == st.0 + part);
    let y = choose|y: int| 0 <= y < part.len() && part[y] == id;
    assert(nxt[st.0.len() + y] == id);
    lemma_links_upto_grows(ls, n + 1, ls.len() as int, sid, id);
    let lk = links_upto(ls, ls.len() as int, sid).0;
    let z = choose|z: int| 0 <= z < lk.len() && lk[z] == id;
    let refs = crate::parser::filtered_refs(content).map_values(|r: crate::parser::RefModel| r.id);
    assert(link_ids(content) == refs + lk);
    assert(link_ids(content)[refs.len() + z] == id);
}

} // verus!
