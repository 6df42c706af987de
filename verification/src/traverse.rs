//! Container traversal: given a field marked "validate contents" and its
//! runtime value, invoke the inner validator once per element and fold the
//! results into the outcome with positional or key-based identity preserved.
//!
//! Every traversal function is guarded: if the field already records direct
//! failures, its own checks are authoritative, nested traversal is skipped
//! entirely, and the outcome is returned unchanged. Under that guard a
//! traversal can never conflict, so these functions return the outcome
//! directly.

use vstd::prelude::*;

use crate::merge::{
    has_error, lemma_merge_all_free_of_conflicts, merge_all, merge_nested, spec_has_error,
    spec_merge_all, spec_merge_nested, spec_pairs_view,
};
use crate::tree::{MergeConflict, OutcomeView, ValidationOutcome};
use vstd::pervasive::unreached;

verus! {

/// The capability every validated record type implements: produce the outcome
/// of validating itself. Nothing is assumed of an implementation; the engine
/// states what holds of the merged result whatever outcome came back.
pub trait Validate {
    /// Validates this record and returns its outcome.
    fn validate(&self) -> ValidationOutcome;
}

/// A reference adds no behavior: validating through it is validating the
/// referent.
impl<T: Validate> Validate for &T {
    fn validate(&self) -> ValidationOutcome {
        <T as Validate>::validate(*self)
    }
}

/// Positional (index, outcome) pairs for a sequence of element outcomes, with
/// the zero-based index assigned at traversal time.
pub open spec fn spec_position_pairs(ns: Seq<OutcomeView>) -> Seq<(u64, OutcomeView)> {
    Seq::new(ns.len(), |i: int| (i as u64, ns[i]))
}

/// Keyed (key, outcome) pairs for the element outcomes of a keyed container,
/// under the container's own keys.
pub open spec fn spec_keyed_pairs(keys: Seq<u64>, ns: Seq<OutcomeView>) -> Seq<(u64, OutcomeView)>
{
    Seq::new(ns.len(), |i: int| (keys[i], ns[i]))
}

/// Validates the single (non-optional) nested record held by `field` and
/// merges its outcome. Skipped entirely when `field` already records direct
/// failures: the direct failure is authoritative.
pub fn validate_nested<T: Validate>(
    outcome: ValidationOutcome,
    field: &str,
    value: &T,
) -> (r: ValidationOutcome)
    ensures
        spec_has_error(outcome@, field@) ==> r@ == outcome@,
        !spec_has_error(outcome@, field@) ==> exists|n: OutcomeView|
            spec_merge_nested(outcome@, field@, n) == Ok::<OutcomeView, MergeConflict>(r@),
{
    if has_error(&outcome, field) {
        return outcome;
    }
    let ghost o0 = outcome@;
    let nested = value.validate();
    let ghost n = nested@;
    match merge_nested(outcome, field, nested) {
        Ok(o) => {
            proof {
                assert(spec_merge_nested(o0, field@, n) == Ok::<OutcomeView, MergeConflict>(o@));
            }
            o
        },
        Err(_) => unreached(),
    }
}

/// Validates an optional nested record: an absent value contributes nothing;
/// a present one is validated exactly as the non-optional case.
pub fn validate_optional<T: Validate>(
    outcome: ValidationOutcome,
    field: &str,
    value: &Option<T>,
) -> (r: ValidationOutcome)
    ensures
        (*value) is None ==> r@ == outcome@,
        spec_has_error(outcome@, field@) ==> r@ == outcome@,
        ((*value) is Some && !spec_has_error(outcome@, field@)) ==> exists|n: OutcomeView|
            spec_merge_nested(outcome@, field@, n) == Ok::<OutcomeView, MergeConflict>(r@),
{
    match value {
        None => outcome,
        Some(v) => validate_nested(outcome, field, v),
    }
}

/// Validates every element of an ordered sequence (list, fixed-size array or
/// slice) held by `field`, assigning zero-based positional indices at
/// traversal time, and merges the results: only failing elements get an entry
/// in the field's `List` binding. Skipped entirely when `field` already
/// records direct failures.
///
/// An unordered set of validated elements is traversed the same way: its
/// elements have no intrinsic key, so the caller hands them over in its
/// set's iteration order and that order assigns the indices.
pub fn validate_items<T: Validate>(
    outcome: ValidationOutcome,
    field: &str,
    items: &[T],
) -> (r: ValidationOutcome)
    ensures
        spec_has_error(outcome@, field@) ==> r@ == outcome@,
        !spec_has_error(outcome@, field@) ==> exists|ns: Seq<OutcomeView>|
            ns.len() == items@.len() && spec_merge_all(outcome@, field@, spec_position_pairs(ns))
                == Ok::<OutcomeView, MergeConflict>(r@),
{
    if has_error(&outcome, field) {
        return outcome;
    }
    let mut pairs: Vec<(u64, ValidationOutcome)> = Vec::new();
    let mut i: usize = 0;
    while i < items.len()
        invariant
            i <= items@.len(),
            pairs@.len() == i,
            forall|j: int| 0 <= j < i ==> (#[trigger] pairs@[j]).0 == j as u64,
        decreases items@.len() - i,
    {
        let element = &items[i];
        let nested = element.validate();
        pairs.push((i as u64, nested));
        i = i + 1;
    }
    let ghost pv = spec_pairs_view(pairs@);
    let ghost ns = Seq::new(pairs@.len(), |j: int| pairs@[j].1@);
    proof {
        assert(pv =~= spec_position_pairs(ns));
        lemma_merge_all_free_of_conflicts(outcome@, field@, pv);
    }
    match merge_all(outcome, field, pairs) {
        Ok(o) => o,
        Err(_) => unreached(),
    }
}

/// Validates an optional ordered sequence: an absent container contributes
/// nothing; a present one is traversed exactly as [`validate_items`] does.
pub fn validate_optional_items<T: Validate>(
    outcome: ValidationOutcome,
    field: &str,
    items: &Option<Vec<T>>,
) -> (r: ValidationOutcome)
    ensures
        (*items) is None ==> r@ == outcome@,
        spec_has_error(outcome@, field@) ==> r@ == outcome@,
        ((*items) is Some && !spec_has_error(outcome@, field@)) ==> exists|ns: Seq<OutcomeView>|
            spec_merge_all(outcome@, field@, spec_position_pairs(ns)) == Ok::<
                OutcomeView,
                MergeConflict,
            >(r@),
{
    match items {
        None => outcome,
        Some(v) => validate_items(outcome, field, v.as_slice()),
    }
}

/// Validates every element of a keyed container held by `field`, under the
/// container's own keys, and merges the results: only failing elements get an
/// entry in the field's `List` binding. Skipped entirely when `field` already
/// records direct failures. A repeated key whose earlier entry recorded
/// failures is a conflict, so the result is returned as a `Result`; keyed
/// containers hand over each key once, which keeps the fold conflict-free.
pub fn validate_entries<T: Validate>(
    outcome: ValidationOutcome,
    field: &str,
    entries: &[(u64, T)],
) -> (r: Result<ValidationOutcome, MergeConflict>)
    ensures
        spec_has_error(outcome@, field@) ==> (r matches Ok(o) && o@ == outcome@),
        !spec_has_error(outcome@, field@) ==> exists|ns: Seq<OutcomeView>|
            ns.len() == entries@.len() && {
                let keys = Seq::new(entries@.len(), |i: int| entries@[i].0);
                match spec_merge_all(outcome@, field@, spec_keyed_pairs(keys, ns)) {
                    Ok(o2) => r matches Ok(o) && o@ == o2,
                    Err(c) => r == Err::<ValidationOutcome, MergeConflict>(c),
                }
            },
{
    if has_error(&outcome, field) {
        return Ok(outcome);
    }
    let mut pairs: Vec<(u64, ValidationOutcome)> = Vec::new();
    let mut i: usize = 0;
    while i < entries.len()
        invariant
            i <= entries@.len(),
            pairs@.len() == i,
            forall|j: int| 0 <= j < i ==> (#[trigger] pairs@[j]).0 == entries@[j].0,
        decreases entries@.len() - i,
    {
        let entry = &entries[i];
        let nested = entry.1.validate();
        pairs.push((entry.0, nested));
        i = i + 1;
    }
    let ghost pv = spec_pairs_view(pairs@);
    let ghost ns = Seq::new(pairs@.len(), |j: int| pairs@[j].1@);
    let ghost keys = Seq::new(entries@.len(), |j: int| entries@[j].0);
    proof {
        assert(pv =~= spec_keyed_pairs(keys, ns));
    }
    merge_all(outcome, field, pairs)
}

/// Validates an optional keyed container: an absent container contributes
/// nothing; a present one is traversed exactly as [`validate_entries`] does.
pub fn validate_optional_entries<T: Validate>(
    outcome: ValidationOutcome,
    field: &str,
    entries: &Option<Vec<(u64, T)>>,
) -> (r: Result<ValidationOutcome, MergeConflict>)
    ensures
        (*entries) is None ==> (r matches Ok(o) && o@ == outcome@),
        spec_has_error(outcome@, field@) ==> (r matches Ok(o) && o@ == outcome@),
        ((*entries) is Some && !spec_has_error(outcome@, field@)) ==> exists|
            ns: Seq<OutcomeView>,
            keys: Seq<u64>,
        |
            match spec_merge_all(outcome@, field@, #[trigger] spec_keyed_pairs(keys, ns)) {
                Ok(o2) => r matches Ok(o) && o@ == o2,
                Err(c) => r == Err::<ValidationOutcome, MergeConflict>(c),
            },
{
    match entries {
        None => Ok(outcome),
        Some(v) => validate_entries(outcome, field, v.as_slice()),
    }
}

} // verus!
