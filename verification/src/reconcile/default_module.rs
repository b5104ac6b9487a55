//! The rule module that ships with the engine: checklist-status follows the
//! checkboxes, ref items wait for their targets, archived notes are done.
use vstd::prelude::*;

verus! {

/// Source text of the built-in default module.
pub const DEFAULT_MODULE: &'static str = "(module
  (policy
    (cycle error)
    (unknown-status todo))

  (define (materialized_fields n)
    (list \"checklist-status\"))

  ;; Leaf checkboxes use their observed state; parents derive from children.
  (define (child_status c)
    (if (empty? (children c))
        done
        (aggregate_status (map effective_checked (children c)))))

  (define (local_status c)
    (if (empty? (children c))
        (observe_checked c)
        (child_status c)))

  ;; Ref-item targets must ALL be done before the checkbox is done.
  (define (targets_allow? c)
    (if (empty? (targets c))
        true
        (all_done (map target_status (targets c)))))

  (define (effective_checked c)
    (if (empty? (targets c))
        (local_status c)
        (if (targets_allow? c)
            (child_status c)
            todo)))

  (define (target_status n)
    (effective_meta n \"checklist-status\"))

  ;; Archived notes are always done; empty-checklist notes keep their
  ;; observed value; otherwise aggregate leaf states.
  (define (effective_meta n field)
    (if (eq? field \"checklist-status\")
        (if (eq? (observe_meta n \"relation\") \"archived\")
            done
            (if (empty? (local_checkboxes n))
                (observe_meta n \"checklist-status\")
                (aggregate_status (map effective_checked (local_checkboxes n)))))
        (observe_meta n field))))
";

} // verus!
