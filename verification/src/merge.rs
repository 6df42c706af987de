//! The merge engine: the generator-facing operations that combine an
//! outcome-so-far with a newly computed field-level check result or with the
//! outcomes of validating a field's nested contents.
//!
//! Every operation is a pure function of its inputs, described exactly by a
//! spec-level counterpart. The mandatory evaluation order — all field-level
//! checks merged before any nested traversal for any field — is what keeps
//! these operations free of conflicts; a broken order surfaces as a
//! [`MergeConflict`].

use vstd::prelude::*;

use crate::issue::{IssueView, ValidationIssue};
use crate::tree::{
    spec_insert_issue, spec_insert_list_entry, spec_insert_nested, KindView, MergeConflict,
    OutcomeView, TreeView, ValidationErrorTree, ValidationOutcome,
};

verus! {

/// The tree an outcome carries; a valid outcome stands for the empty tree.
pub open spec fn spec_outcome_tree(o: OutcomeView) -> TreeView {
    match o {
        OutcomeView::Valid => TreeView::empty(),
        OutcomeView::Invalid(t) => t,
    }
}

/// Whether the outcome already records failures for field `f`.
pub open spec fn spec_has_error(o: OutcomeView, f: Seq<char>) -> bool {
    spec_outcome_tree(o).fields.contains_key(f)
}

/// Model of an optional check result.
pub open spec fn spec_check_view(check: Option<ValidationIssue>) -> Option<IssueView> {
    match check {
        None => None,
        Some(issue) => Some(issue@),
    }
}

/// Model of a sequence of keyed element outcomes.
pub open spec fn spec_pairs_view(pairs: Seq<(u64, ValidationOutcome)>) -> Seq<(u64, OutcomeView)> {
    pairs.map_values(|p: (u64, ValidationOutcome)| (p.0, p.1@))
}

/// Model of [`merge_field`]: a passing check (no issue) leaves the outcome
/// unchanged; a failing check records its issue under `f` and makes the
/// outcome invalid.
pub open spec fn spec_merge_field(o: OutcomeView, f: Seq<char>, check: Option<IssueView>) -> Result<
    OutcomeView,
    MergeConflict,
> {
    match check {
        None => Ok(o),
        Some(issue) => match spec_insert_issue(spec_outcome_tree(o), f, issue) {
            Ok(t) => Ok(OutcomeView::Invalid(t)),
            Err(c) => Err(c),
        },
    }
}

/// Model of [`merge_nested`]: a valid nested outcome leaves the outcome
/// unchanged; an invalid one embeds its tree under `f` as `Struct`.
pub open spec fn spec_merge_nested(o: OutcomeView, f: Seq<char>, nested: OutcomeView) -> Result<
    OutcomeView,
    MergeConflict,
> {
    match nested {
        OutcomeView::Valid => Ok(o),
        OutcomeView::Invalid(_) => match spec_insert_nested(spec_outcome_tree(o), f, nested) {
            Ok(t) => Ok(OutcomeView::Invalid(t)),
            Err(c) => Err(c),
        },
    }
}

/// Model of one step of [`merge_all`]: a valid element, or an invalid one
/// whose tree is empty, contributes nothing; any other failing element is
/// recorded under its key in the `List` binding of `f`.
pub open spec fn spec_merge_entry(
    o: OutcomeView,
    f: Seq<char>,
    key: u64,
    nested: OutcomeView,
) -> Result<OutcomeView, MergeConflict> {
    match nested {
        OutcomeView::Valid => Ok(o),
        OutcomeView::Invalid(nt) => {
            if nt.is_empty() {
                Ok(o)
            } else {
                match spec_insert_list_entry(spec_outcome_tree(o), f, key, nested) {
                    Ok(t) => Ok(OutcomeView::Invalid(t)),
                    Err(c) => Err(c),
                }
            }
        },
    }
}

/// Model of [`merge_all`]: fold every keyed element outcome, in order,
/// through [`spec_merge_entry`], stopping at the first conflict.
pub open spec fn spec_merge_all(
    o: OutcomeView,
    f: Seq<char>,
    pairs: Seq<(u64, OutcomeView)>,
) -> Result<OutcomeView, MergeConflict>
    decreases pairs.len(),
{
    if pairs.len() == 0 {
        Ok(o)
    } else {
        match spec_merge_entry(o, f, pairs.first().0, pairs.first().1) {
            Ok(o2) => spec_merge_all(o2, f, pairs.drop_first()),
            Err(c) => Err(c),
        }
    }
}

/// True iff `field` already records failures in `outcome`'s tree. Generated
/// code uses this to skip nested traversal for a field whose own checks
/// failed.
pub fn has_error(outcome: &ValidationOutcome, field: &str) -> (r: bool)
    ensures
        r == spec_has_error(outcome@, field@),
{
    match outcome {
        ValidationOutcome::Valid => false,
        ValidationOutcome::Invalid(t) => t.contains_field(field),
    }
}

/// Merges the result of one field-level check: `None` for a passing check,
/// `Some(issue)` for a failing one. Multiple failing checks on the same field
/// accumulate their issues in order. Conflicts only if `field` is already
/// bound to nested content, which the mandatory evaluation order rules out.
pub fn merge_field(outcome: ValidationOutcome, field: &str, check: Option<ValidationIssue>) -> (r:
    Result<ValidationOutcome, MergeConflict>)
    ensures
        match spec_merge_field(outcome@, field@, spec_check_view(check)) {
            Ok(o2) => r matches Ok(o) && o@ == o2,
            Err(c) => r == Err::<ValidationOutcome, MergeConflict>(c),
        },
{
    match check {
        None => Ok(outcome),
        Some(issue) => {
            let mut tree = match outcome {
                ValidationOutcome::Valid => ValidationErrorTree::new(),
                ValidationOutcome::Invalid(t) => t,
            };
            match tree.insert_issue(field, issue) {
                Ok(()) => Ok(ValidationOutcome::Invalid(tree)),
                Err(c) => Err(c),
            }
        },
    }
}

/// Merges the outcome of validating the single nested record held by
/// `field`. Used when the field's value is one validated record.
pub fn merge_nested(outcome: ValidationOutcome, field: &str, nested: ValidationOutcome) -> (r:
    Result<ValidationOutcome, MergeConflict>)
    ensures
        match spec_merge_nested(outcome@, field@, nested@) {
            Ok(o2) => r matches Ok(o) && o@ == o2,
            Err(c) => r == Err::<ValidationOutcome, MergeConflict>(c),
        },
{
    if nested.is_valid() {
        return Ok(outcome);
    }
    let mut tree = match outcome {
        ValidationOutcome::Valid => ValidationErrorTree::new(),
        ValidationOutcome::Invalid(t) => t,
    };
    match tree.insert_nested(field, nested) {
        Ok(()) => Ok(ValidationOutcome::Invalid(tree)),
        Err(c) => Err(c),
    }
}

/// Merges the outcome of one container element under its key.
fn merge_entry(outcome: ValidationOutcome, field: &str, key: u64, nested: ValidationOutcome) -> (r:
    Result<ValidationOutcome, MergeConflict>)
    ensures
        match spec_merge_entry(outcome@, field@, key, nested@) {
            Ok(o2) => r matches Ok(o) && o@ == o2,
            Err(c) => r == Err::<ValidationOutcome, MergeConflict>(c),
        },
{
    if nested.is_valid() {
        return Ok(outcome);
    }
    let pruned = match nested.tree() {
        Some(t) => t.is_empty(),
        None => false,
    };
    if pruned {
        return Ok(outcome);
    }
    let mut tree = match outcome {
        ValidationOutcome::Valid => ValidationErrorTree::new(),
        ValidationOutcome::Invalid(t) => t,
    };
    match tree.insert_list_entry(field, key, nested) {
        Ok(()) => Ok(ValidationOutcome::Invalid(tree)),
        Err(c) => Err(c),
    }
}

/// Merges an ordered sequence of keyed element outcomes — the result of
/// validating every element of a container field — skipping valid elements
/// and recording each failing one under its key.
pub fn merge_all(
    outcome: ValidationOutcome,
    field: &str,
    pairs: Vec<(u64, ValidationOutcome)>,
) -> (r: Result<ValidationOutcome, MergeConflict>)
    ensures
        match spec_merge_all(outcome@, field@, spec_pairs_view(pairs@)) {
            Ok(o2) => r matches Ok(o) && o@ == o2,
            Err(c) => r == Err::<ValidationOutcome, MergeConflict>(c),
        },
{
    let ghost full = spec_pairs_view(pairs@);
    let mut rest = pairs;
    let mut acc = outcome;
    while rest.len() > 0
        invariant
            full == spec_pairs_view(pairs@),
            spec_merge_all(outcome@, field@, full) == spec_merge_all(
                acc@,
                field@,
                spec_pairs_view(rest@),
            ),
        decreases rest@.len(),
    {
        let ghost rest0 = rest@;
        let ghost acc0 = acc@;
        let p = rest.remove(0);
        proof {
            assert(rest@ =~= rest0.drop_first());
            assert(spec_pairs_view(rest@) =~= spec_pairs_view(rest0).drop_first());
            assert(spec_pairs_view(rest0).first() == (p.0, p.1@));
        }
        match merge_entry(acc, field, p.0, p.1) {
            Ok(o2) => {
                acc = o2;
            },
            Err(c) => {
                proof {
                    assert(spec_merge_all(acc0, field@, spec_pairs_view(rest0))
                        == Err::<OutcomeView, MergeConflict>(c));
                }
                return Err(c);
            },
        }
    }
    proof {
        assert(spec_pairs_view(rest@) =~= Seq::<(u64, OutcomeView)>::empty());
    }
    Ok(acc)
}

/// Folding keyed outcomes with pairwise distinct keys into an outcome whose
/// tree does not yet bind `f` can never conflict: the first failing element
/// creates the `List` binding, and later distinct keys extend it.
pub proof fn lemma_merge_all_free_of_conflicts(
    o: OutcomeView,
    f: Seq<char>,
    pairs: Seq<(u64, OutcomeView)>,
)
    requires
        match spec_outcome_tree(o).get(f) {
            None => true,
            Some(KindView::List(m)) => forall|i: int|
                0 <= i < pairs.len() ==> !m.contains_key((#[trigger] pairs[i]).0),
            Some(_) => false,
        },
        forall|i: int, j: int| 0 <= i < j < pairs.len() ==> pairs[i].0 != pairs[j].0,
    ensures
        spec_merge_all(o, f, pairs) is Ok,
    decreases pairs.len(),
{
    if pairs.len() > 0 {
        let step = spec_merge_entry(o, f, pairs.first().0, pairs.first().1);
        assert(step is Ok);
        lemma_merge_all_free_of_conflicts(step->Ok_0, f, pairs.drop_first());
    }
}

} // verus!
