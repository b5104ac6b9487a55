//! The materialize layer: which effective values are written back.
use vstd::prelude::*;
use crate::reconcile::eval::{checked_models, meta_models, EvalResult};
use crate::reconcile::types::{CheckboxId, CheckboxWriteback, Status, Value, ValueModel};

verus! {

/// What a reconcile run writes back.
pub struct ReconcileResult {
    /// Field values to write: (note ID, field path, value).
    pub materialized_meta: Vec<(String, String, Value)>,
    /// Checkbox rewrites.
    pub materialized_checked: Vec<(CheckboxId, CheckboxWriteback)>,
}

/// The rewrite a checkbox's effective status asks for: `done` checks it,
/// `todo` and `wip` uncheck it, `none` leaves it as it is.
pub open spec fn writeback_of(s: Status) -> CheckboxWriteback {
    match s {
        Status::Done => CheckboxWriteback::Checked,
        Status::NotApplicable => CheckboxWriteback::Keep,
        _ => CheckboxWriteback::Unchecked,
    }
}

/// Materialized values are the effective ones: the same field values, and
/// each checkbox's effective status as a rewrite.
pub fn materialize(eval: EvalResult) -> (r: ReconcileResult)
    ensures
        meta_models(r.materialized_meta@) == meta_models(eval.effective_meta@),
        r.materialized_checked.len() == eval.effective_checked.len(),
        forall|k: int|
            0 <= k < r.materialized_checked.len() ==> (#[trigger] r.materialized_checked@[k]).0.note_id@
                == eval.effective_checked@[k].0.note_id@ && r.materialized_checked@[k].0.line_idx
                == eval.effective_checked@[k].0.line_idx && r.materialized_checked@[k].1 == writeback_of(
                eval.effective_checked@[k].1,
            ),
{
    let mut checked: Vec<(CheckboxId, CheckboxWriteback)> = Vec::new();
    let mut k: usize = 0;
    while k < eval.effective_checked.len()
        invariant
            k <= eval.effective_checked.len(),
            checked.len() == k,
            forall|j: int|
                0 <= j < k ==> (#[trigger] checked@[j]).0.note_id@ == eval.effective_checked@[j].0.note_id@
                    && checked@[j].0.line_idx == eval.effective_checked@[j].0.line_idx && checked@[j].1
                    == writeback_of(eval.effective_checked@[j].1),
        decreases eval.effective_checked.len() - k,
    {
        let (cid, s) = (&eval.effective_checked[k].0, eval.effective_checked[k].1);
        let w = match s {
            Status::Done => CheckboxWriteback::Checked,
            Status::NotApplicable => CheckboxWriteback::Keep,
            _ => CheckboxWriteback::Unchecked,
        };
        checked.push((CheckboxId { note_id: cid.note_id.clone(), line_idx: cid.line_idx }, w));
        k += 1;
    }
    ReconcileResult { materialized_meta: eval.effective_meta, materialized_checked: checked }
}

} // verus!
