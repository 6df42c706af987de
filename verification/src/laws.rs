//! The guarantees the engine gives to generated or hand-written glue code,
//! stated and proved over the spec-level models that every executable
//! operation is contracted to match.
//!
//! A whole validation pass is modelled as a sequence of [`EngineStep`]s — one
//! per field-level check and one per nested traversal — folded over an
//! outcome by [`spec_run`].

use vstd::prelude::*;

use crate::issue::IssueView;
use crate::merge::{
    spec_has_error, spec_merge_all, spec_merge_entry, spec_merge_field, spec_merge_nested,
    spec_outcome_tree,
};
use crate::tree::{KindView, MergeConflict, OutcomeView, TreeView};

verus! {

/// One merge operation of a record's validation pass.
pub enum EngineStep {
    /// One field-level check on `field`: `None` for a pass, `Some(issue)` for
    /// a failure.
    FieldCheck { field: Seq<char>, check: Option<IssueView> },
    /// Nested traversal of the single record held by `field`.
    Nested { field: Seq<char>, nested: OutcomeView },
    /// Nested traversal of a container held by `field`, one keyed outcome per
    /// element.
    All { field: Seq<char>, pairs: Seq<(u64, OutcomeView)> },
}

/// The effect of one step on the outcome so far.
pub open spec fn spec_run_step(o: OutcomeView, step: EngineStep) -> Result<
    OutcomeView,
    MergeConflict,
> {
    match step {
        EngineStep::FieldCheck { field, check } => spec_merge_field(o, field, check),
        EngineStep::Nested { field, nested } => spec_merge_nested(o, field, nested),
        EngineStep::All { field, pairs } => spec_merge_all(o, field, pairs),
    }
}

/// A whole validation pass: the steps folded in order, stopping at the first
/// conflict.
pub open spec fn spec_run(o: OutcomeView, steps: Seq<EngineStep>) -> Result<
    OutcomeView,
    MergeConflict,
>
    decreases steps.len(),
{
    if steps.len() == 0 {
        Ok(o)
    } else {
        match spec_run_step(o, steps.first()) {
            Ok(o2) => spec_run(o2, steps.drop_first()),
            Err(c) => Err(c),
        }
    }
}

/// An element outcome that actually contributes failures: invalid with a
/// non-empty tree. Valid elements and empty nested trees are skipped by the
/// merge engine.
pub open spec fn spec_entry_fails(n: OutcomeView) -> bool {
    n is Invalid && !(n->Invalid_0).is_empty()
}

/// A step none of whose checks failed: a passing field check, a valid nested
/// outcome, or a container whose every element outcome contributes nothing.
pub open spec fn spec_step_clean(step: EngineStep) -> bool {
    match step {
        EngineStep::FieldCheck { field: _, check } => check is None,
        EngineStep::Nested { field: _, nested } => nested is Valid,
        EngineStep::All { field: _, pairs } => forall|i: int|
            0 <= i < pairs.len() ==> !spec_entry_fails((#[trigger] pairs[i]).1),
    }
}

proof fn lemma_merge_all_clean(o: OutcomeView, f: Seq<char>, pairs: Seq<(u64, OutcomeView)>)
    requires
        forall|i: int| 0 <= i < pairs.len() ==> !spec_entry_fails((#[trigger] pairs[i]).1),
    ensures
        spec_merge_all(o, f, pairs) == Ok::<OutcomeView, MergeConflict>(o),
    decreases pairs.len(),
{
    if pairs.len() > 0 {
        lemma_merge_all_clean(o, f, pairs.drop_first());
    }
}

/// For a record with no failing checks at any depth, validation leaves the
/// outcome untouched: a pass made only of clean steps never conflicts and
/// returns its starting outcome, so a record that starts valid ends valid and
/// the tree, if materialized, is empty.
pub proof fn lemma_clean_validation_stays_valid(o: OutcomeView, steps: Seq<EngineStep>)
    requires
        forall|i: int| 0 <= i < steps.len() ==> spec_step_clean(#[trigger] steps[i]),
    ensures
        spec_run(o, steps) == Ok::<OutcomeView, MergeConflict>(o),
        o is Valid ==> spec_outcome_tree(spec_run(o, steps)->Ok_0) == TreeView::empty(),
    decreases steps.len(),
{
    if steps.len() > 0 {
        match steps.first() {
            EngineStep::All { field, pairs } => {
                lemma_merge_all_clean(o, field, pairs);
            },
            _ => {},
        }
        lemma_clean_validation_stays_valid(o, steps.drop_first());
    }
}

/// Direct failures take priority deterministically. Once a field records a
/// direct failure, `spec_has_error` holds for it — so every guarded traversal
/// returns the outcome unchanged, and no `Struct` or `List` entry can come to
/// coexist with the `Field` entry — and any unguarded attempt to merge nested
/// content under that field fails fatally with the distinguishable
/// "non-empty entry replaced" conflict instead of silently overwriting the
/// recorded issues.
pub proof fn lemma_direct_failure_is_authoritative(
    o: OutcomeView,
    f: Seq<char>,
    n: OutcomeView,
    key: u64,
)
    requires
        spec_outcome_tree(o).get(f) matches Some(KindView::Field(_)),
    ensures
        spec_has_error(o, f),
        n is Invalid ==> spec_merge_nested(o, f, n) == Err::<OutcomeView, MergeConflict>(
            MergeConflict::NonEmptyEntryReplaced,
        ),
        spec_entry_fails(n) ==> spec_merge_entry(o, f, key, n) == Err::<
            OutcomeView,
            MergeConflict,
        >(MergeConflict::NonEmptyEntryReplaced),
{
}

/// The reverse conflict is just as loud: recording a direct issue under a
/// field name already bound to nested content (`Struct` or `List`) fails
/// fatally with the distinguishable "field validation added to a non-Field
/// entry" conflict.
pub proof fn lemma_issue_on_nested_content_conflicts(o: OutcomeView, f: Seq<char>, issue: IssueView)
    requires
        spec_outcome_tree(o).get(f) is Some,
        !(spec_outcome_tree(o).get(f)->Some_0 is Field),
    ensures
        spec_merge_field(o, f, Some(issue)) == Err::<OutcomeView, MergeConflict>(
            MergeConflict::FieldValidationOnNonField,
        ),
{
}

/// Validation is a pure function of the record's data: equal outcomes folded
/// through equal step sequences give equal results, so re-running an
/// unmodified record's validation produces a structurally identical tree.
/// Each executable merge operation is contracted to return exactly its
/// spec-level counterpart, which carries this determinism to the running
/// engine.
pub proof fn lemma_validation_deterministic(
    o1: OutcomeView,
    o2: OutcomeView,
    steps1: Seq<EngineStep>,
    steps2: Seq<EngineStep>,
)
    requires
        o1 == o2,
        steps1 == steps2,
    ensures
        spec_run(o1, steps1) == spec_run(o2, steps2),
{
}

/// The `List` entries that folding `pairs` adds on top of `m0`: one entry per
/// failing element outcome, under that element's key, holding that element's
/// tree.
pub open spec fn spec_list_additions(
    m0: Map<u64, TreeView>,
    pairs: Seq<(u64, OutcomeView)>,
) -> Map<u64, TreeView>
    decreases pairs.len(),
{
    if pairs.len() == 0 {
        m0
    } else {
        let m1 = if spec_entry_fails(pairs.first().1) {
            m0.insert(pairs.first().0, pairs.first().1->Invalid_0)
        } else {
            m0
        };
        spec_list_additions(m1, pairs.drop_first())
    }
}

/// Entries already present keep their trees: folding element outcomes whose
/// keys all differ from `k` never disturbs the entry at `k`.
pub proof fn lemma_list_entries_preserved(
    m0: Map<u64, TreeView>,
    pairs: Seq<(u64, OutcomeView)>,
    k: u64,
)
    requires
        m0.contains_key(k),
        forall|i: int| 0 <= i < pairs.len() ==> (#[trigger] pairs[i]).0 != k,
    ensures
        spec_list_additions(m0, pairs).contains_key(k),
        spec_list_additions(m0, pairs)[k] == m0[k],
    decreases pairs.len(),
{
    if pairs.len() > 0 {
        let first = pairs.first();
        let m1 = if spec_entry_fails(first.1) {
            m0.insert(first.0, first.1->Invalid_0)
        } else {
            m0
        };
        lemma_list_entries_preserved(m1, pairs.drop_first(), k);
    }
}

/// A key is present in the folded `List` only for the starting entries or for
/// an element outcome that actually contributes failures: positions whose
/// element came back valid (or with an empty tree) are absent.
pub proof fn lemma_list_entry_only_for_failing(
    m0: Map<u64, TreeView>,
    pairs: Seq<(u64, OutcomeView)>,
    k: u64,
)
    requires
        spec_list_additions(m0, pairs).contains_key(k),
        !m0.contains_key(k),
    ensures
        exists|i: int|
            0 <= i < pairs.len() && (#[trigger] pairs[i]).0 == k && spec_entry_fails(pairs[i].1),
    decreases pairs.len(),
{
    let first = pairs.first();
    let m1 = if spec_entry_fails(first.1) {
        m0.insert(first.0, first.1->Invalid_0)
    } else {
        m0
    };
    if m1.contains_key(k) {
        assert(pairs[0].0 == k && spec_entry_fails(pairs[0].1));
    } else {
        lemma_list_entry_only_for_failing(m1, pairs.drop_first(), k);
        let i = choose|i: int|
            0 <= i < pairs.drop_first().len() && (#[trigger] pairs.drop_first()[i]).0 == k
                && spec_entry_fails(pairs.drop_first()[i].1);
        assert(pairs[i + 1] == pairs.drop_first()[i]);
        assert(pairs[i + 1].0 == k && spec_entry_fails(pairs[i + 1].1));
    }
}

/// Every element outcome that contributes failures gets its entry: under its
/// own key, mapping to exactly its tree.
pub proof fn lemma_list_entry_for_each_failing(
    m0: Map<u64, TreeView>,
    pairs: Seq<(u64, OutcomeView)>,
    i: int,
)
    requires
        forall|a: int, b: int| 0 <= a < b < pairs.len() ==> pairs[a].0 != pairs[b].0,
        forall|a: int| 0 <= a < pairs.len() ==> !m0.contains_key((#[trigger] pairs[a]).0),
        0 <= i < pairs.len(),
        spec_entry_fails(pairs[i].1),
    ensures
        spec_list_additions(m0, pairs).contains_key(pairs[i].0),
        spec_list_additions(m0, pairs)[pairs[i].0] == pairs[i].1->Invalid_0,
    decreases pairs.len(),
{
    let first = pairs.first();
    let m1 = if spec_entry_fails(first.1) {
        m0.insert(first.0, first.1->Invalid_0)
    } else {
        m0
    };
    if i == 0 {
        assert(m1.contains_key(pairs[0].0) && m1[pairs[0].0] == pairs[0].1->Invalid_0);
        assert(forall|a: int|
            0 <= a < pairs.drop_first().len() ==> (#[trigger] pairs.drop_first()[a]).0
                != pairs[0].0);
        lemma_list_entries_preserved(m1, pairs.drop_first(), pairs[0].0);
    } else {
        assert(pairs.drop_first()[i - 1] == pairs[i]);
        lemma_list_entry_for_each_failing(m1, pairs.drop_first(), i - 1);
    }
}

/// For a container field not yet bound in the outcome, folding its keyed
/// element outcomes (pairwise distinct keys) never conflicts, and the result
/// is exact: if no element contributes failures the outcome is unchanged —
/// no error slot is materialized for the container — and otherwise the field
/// becomes a `List` holding exactly one entry per failing element, under its
/// key, mapping to that element's tree, with every other field untouched.
pub proof fn lemma_merge_all_exact(o: OutcomeView, f: Seq<char>, pairs: Seq<(u64, OutcomeView)>)
    requires
        !spec_has_error(o, f),
        forall|i: int, j: int| 0 <= i < j < pairs.len() ==> pairs[i].0 != pairs[j].0,
    ensures
        spec_merge_all(o, f, pairs) is Ok,
        (forall|i: int| 0 <= i < pairs.len() ==> !spec_entry_fails((#[trigger] pairs[i]).1))
            ==> spec_merge_all(o, f, pairs) == Ok::<OutcomeView, MergeConflict>(o),
        (exists|i: int| 0 <= i < pairs.len() && spec_entry_fails((#[trigger] pairs[i]).1)) ==> ({
            let res = spec_merge_all(o, f, pairs)->Ok_0;
            &&& res is Invalid
            &&& res->Invalid_0.get(f) == Some(
                KindView::List(spec_list_additions(Map::empty(), pairs)),
            )
            &&& forall|g: Seq<char>|
                g != f ==> #[trigger] (res->Invalid_0).get(g) == spec_outcome_tree(o).get(g)
        }),
    decreases pairs.len(),
{
    if pairs.len() > 0 {
        let first = pairs.first();
        let step = spec_merge_entry(o, f, first.0, first.1);
        if !spec_entry_fails(first.1) {
            assert(step == Ok::<OutcomeView, MergeConflict>(o));
            lemma_merge_all_exact(o, f, pairs.drop_first());
            assert(spec_list_additions(Map::<u64, TreeView>::empty(), pairs)
                == spec_list_additions(Map::<u64, TreeView>::empty(), pairs.drop_first()));
            if exists|i: int|
                0 <= i < pairs.len() && spec_entry_fails((#[trigger] pairs[i]).1) {
                let i = choose|i: int|
                    0 <= i < pairs.len() && spec_entry_fails((#[trigger] pairs[i]).1);
                assert(pairs.drop_first()[i - 1] == pairs[i]);
                assert(exists|j: int|
                    0 <= j < pairs.drop_first().len() && spec_entry_fails(
                        (#[trigger] pairs.drop_first()[j]).1,
                    ));
            }
            if forall|j: int|
                0 <= j < pairs.drop_first().len() ==> !spec_entry_fails(
                    (#[trigger] pairs.drop_first()[j]).1,
                ) {
                assert forall|i: int|
                    0 <= i < pairs.len() implies !spec_entry_fails(
                    (#[trigger] pairs[i]).1,
                ) by {
                    if i > 0 {
                        assert(pairs.drop_first()[i - 1] == pairs[i]);
                    }
                }
            }
        } else {
            let nt = first.1->Invalid_0;
            let t0 = spec_outcome_tree(o);
            let m1 = Map::<u64, TreeView>::empty().insert(first.0, nt);
            let o1 = OutcomeView::Invalid(
                TreeView { fields: t0.fields.insert(f, KindView::List(m1)) },
            );
            assert(step == Ok::<OutcomeView, MergeConflict>(o1));
            assert(forall|i: int|
                0 <= i < pairs.drop_first().len() ==> !m1.contains_key(
                    (#[trigger] pairs.drop_first()[i]).0,
                ));
            lemma_merge_all_bound_exact(o1, f, m1, pairs.drop_first());
            assert(spec_list_additions(Map::<u64, TreeView>::empty(), pairs)
                == spec_list_additions(m1, pairs.drop_first()));
            let res = spec_merge_all(o, f, pairs)->Ok_0;
            assert forall|g: Seq<char>| g != f implies #[trigger] (res->Invalid_0).get(g)
                == spec_outcome_tree(o).get(g) by {
                assert((o1->Invalid_0).get(g) == t0.get(g));
            }
        }
    }
}

/// The inductive core of [`lemma_merge_all_exact`] once the field is bound to
/// a `List`: folding further keyed outcomes (distinct keys, all fresh for the
/// entries so far) extends that `List` by exactly the failing ones and
/// touches nothing else.
proof fn lemma_merge_all_bound_exact(
    o: OutcomeView,
    f: Seq<char>,
    m0: Map<u64, TreeView>,
    pairs: Seq<(u64, OutcomeView)>,
)
    requires
        o is Invalid,
        (o->Invalid_0).get(f) == Some(KindView::List(m0)),
        forall|i: int, j: int| 0 <= i < j < pairs.len() ==> pairs[i].0 != pairs[j].0,
        forall|i: int| 0 <= i < pairs.len() ==> !m0.contains_key((#[trigger] pairs[i]).0),
    ensures
        spec_merge_all(o, f, pairs) is Ok,
        ({
            let res = spec_merge_all(o, f, pairs)->Ok_0;
            &&& res is Invalid
            &&& res->Invalid_0.get(f) == Some(KindView::List(spec_list_additions(m0, pairs)))
            &&& forall|g: Seq<char>|
                g != f ==> #[trigger] (res->Invalid_0).get(g) == (o->Invalid_0).get(g)
        }),
    decreases pairs.len(),
{
    if pairs.len() > 0 {
        let first = pairs.first();
        let step = spec_merge_entry(o, f, first.0, first.1);
        if !spec_entry_fails(first.1) {
            assert(step == Ok::<OutcomeView, MergeConflict>(o));
            lemma_merge_all_bound_exact(o, f, m0, pairs.drop_first());
        } else {
            let nt = first.1->Invalid_0;
            let m1 = m0.insert(first.0, nt);
            let t = o->Invalid_0;
            let o1 = OutcomeView::Invalid(
                TreeView { fields: t.fields.insert(f, KindView::List(m1)) },
            );
            assert(step == Ok::<OutcomeView, MergeConflict>(o1));
            lemma_merge_all_bound_exact(o1, f, m1, pairs.drop_first());
        }
    }
}

} // verus!
