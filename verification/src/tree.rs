//! The recursive tree of accumulated validation failures, keyed by field
//! name, together with the shapes a field's failures can take and the outcome
//! type that wraps a finished tree.
//!
//! A field name is bound to at most one shape at a time. Binding a second,
//! incompatible shape to a field that already holds failures is a protocol
//! violation in the calling code, reported through [`MergeConflict`] rather
//! than recorded in the tree.

use vstd::prelude::*;

use crate::issue::{IssueView, ValidationIssue};

verus! {

/// The shape a field's accumulated failures take.
///
/// - `Field`: the field itself failed one or more direct checks.
/// - `Struct`: the field's value is a nested record whose own error tree is
///   embedded.
/// - `List`: the field is a container of validated records; only elements
///   that produced at least one failure are present, under their positional
///   index or map key.
#[derive(Debug, PartialEq, Eq)]
pub enum ValidationErrorsKind {
    Field(Vec<ValidationIssue>),
    Struct(ValidationErrorTree),
    List(Vec<(u64, ValidationErrorTree)>),
}

/// A mapping from field name to the one shape of failures recorded for that
/// field. A field name is absent entirely if the field has no failures
/// anywhere, so an empty tree means a fully valid record.
#[derive(Debug, PartialEq, Eq)]
pub struct ValidationErrorTree {
    entries: Vec<(String, ValidationErrorsKind)>,
}

/// The result of validating one record: either valid, or invalid carrying the
/// tree of accumulated failures.
#[derive(Debug, PartialEq, Eq)]
pub enum ValidationOutcome {
    Valid,
    Invalid(ValidationErrorTree),
}

/// A protocol violation in the calling code, detected while merging.
///
/// - `NonEmptyEntryReplaced`: nested content was merged under a field name
///   that already holds failures (or a list entry's key was already taken).
/// - `FieldValidationOnNonField`: a direct issue was recorded under a field
///   name that is already bound to nested content.
///
/// Either conflict means the mandatory evaluation order (all field-level
/// checks before any nested traversal) was broken; the tree is left
/// unchanged so that no validation result is silently misreported.
#[derive(Clone, Copy, Debug, PartialEq, Eq)]
pub enum MergeConflict {
    NonEmptyEntryReplaced,
    FieldValidationOnNonField,
}

/// Mathematical model of a [`ValidationErrorsKind`].
#[verifier::ext_equal]
pub enum KindView {
    Field(Seq<IssueView>),
    Struct(TreeView),
    List(Map<u64, TreeView>),
}

/// Mathematical model of a [`ValidationErrorTree`]: a finite map from field
/// name to the shape of that field's failures.
#[verifier::ext_equal]
pub struct TreeView {
    pub fields: Map<Seq<char>, KindView>,
}

/// Mathematical model of a [`ValidationOutcome`].
#[verifier::ext_equal]
pub enum OutcomeView {
    Valid,
    Invalid(TreeView),
}

spec fn issues_view(s: Seq<ValidationIssue>) -> Seq<IssueView> {
    s.map_values(|i: ValidationIssue| i@)
}

spec fn kind_view(k: ValidationErrorsKind) -> KindView
    decreases k,
{
    match k {
        ValidationErrorsKind::Field(issues) => KindView::Field(issues_view(issues@)),
        ValidationErrorsKind::Struct(t) => KindView::Struct(tree_view(t)),
        ValidationErrorsKind::List(entries) => KindView::List(list_view(entries@)),
    }
}

spec fn list_view(s: Seq<(u64, ValidationErrorTree)>) -> Map<u64, TreeView>
    decreases s,
{
    if s.len() == 0 {
        Map::empty()
    } else {
        list_view(s.drop_first()).insert(s.first().0, tree_view(s.first().1))
    }
}

spec fn entries_view(s: Seq<(String, ValidationErrorsKind)>) -> Map<Seq<char>, KindView>
    decreases s,
{
    if s.len() == 0 {
        Map::empty()
    } else {
        entries_view(s.drop_first()).insert(s.first().0@, kind_view(s.first().1))
    }
}

spec fn tree_view(t: ValidationErrorTree) -> TreeView
    decreases t,
{
    TreeView { fields: entries_view(t.entries@) }
}

impl View for ValidationErrorsKind {
    type V = KindView;

    closed spec fn view(&self) -> KindView {
        kind_view(*self)
    }
}

impl View for ValidationErrorTree {
    type V = TreeView;

    closed spec fn view(&self) -> TreeView {
        tree_view(*self)
    }
}

impl View for ValidationOutcome {
    type V = OutcomeView;

    open spec fn view(&self) -> OutcomeView {
        match self {
            ValidationOutcome::Valid => OutcomeView::Valid,
            ValidationOutcome::Invalid(t) => OutcomeView::Invalid(t@),
        }
    }
}

impl TreeView {
    /// The model of a tree with no field bound.
    pub open spec fn empty() -> TreeView {
        TreeView { fields: Map::empty() }
    }

    /// No field is bound.
    pub open spec fn is_empty(self) -> bool {
        self.fields == Map::<Seq<char>, KindView>::empty()
    }

    /// The shape bound to `f`, if any.
    pub open spec fn get(self, f: Seq<char>) -> Option<KindView> {
        if self.fields.contains_key(f) {
            Some(self.fields[f])
        } else {
            None
        }
    }
}

// Internal representation invariant: field names are unique, every `Field`
// binding holds at least one issue, and every `List` binding has unique keys
// and no entry for an element whose tree is empty (empty nested trees are
// pruned before insertion).

spec fn list_inv(s: Seq<(u64, ValidationErrorTree)>) -> bool {
    &&& forall|i: int, j: int| 0 <= i < j < s.len() ==> s[i].0 != s[j].0
    &&& forall|i: int| 0 <= i < s.len() ==> (#[trigger] s[i].1).entries@.len() > 0
}

spec fn kind_inv(k: ValidationErrorsKind) -> bool {
    match k {
        ValidationErrorsKind::Field(issues) => issues@.len() > 0,
        ValidationErrorsKind::Struct(_) => true,
        ValidationErrorsKind::List(entries) => list_inv(entries@),
    }
}

spec fn entries_inv(s: Seq<(String, ValidationErrorsKind)>) -> bool {
    &&& forall|i: int, j: int| 0 <= i < j < s.len() ==> s[i].0@ != s[j].0@
    &&& forall|i: int| 0 <= i < s.len() ==> kind_inv(#[trigger] s[i].1)
}

impl ValidationErrorTree {
    #[verifier::type_invariant]
    spec fn inv(self) -> bool {
        entries_inv(self.entries@)
    }
}

// The merge operations, stated over the models. These spec functions are the
// single description of what each tree operation does; the executable
// operations are proved to return exactly these results.

/// Model of [`ValidationErrorTree::insert_issue`]: record one direct failure
/// of field `f`. Binds an absent field to `Field` with the one issue, appends
/// to an existing `Field` binding, and reports a conflict if `f` is already
/// bound to nested content.
pub open spec fn spec_insert_issue(t: TreeView, f: Seq<char>, issue: IssueView) -> Result<
    TreeView,
    MergeConflict,
> {
    match t.get(f) {
        None => Ok(
            TreeView { fields: t.fields.insert(f, KindView::Field(seq![issue])) },
        ),
        Some(KindView::Field(issues)) => Ok(
            TreeView { fields: t.fields.insert(f, KindView::Field(issues.push(issue))) },
        ),
        Some(_) => Err(MergeConflict::FieldValidationOnNonField),
    }
}

/// Model of [`ValidationErrorTree::insert_nested`]: embed the outcome of
/// validating the single nested record held by field `f`. A valid outcome
/// contributes nothing; an invalid one binds an absent `f` to `Struct`, and
/// conflicts with any existing binding of `f`.
pub open spec fn spec_insert_nested(t: TreeView, f: Seq<char>, nested: OutcomeView) -> Result<
    TreeView,
    MergeConflict,
> {
    match nested {
        OutcomeView::Valid => Ok(t),
        OutcomeView::Invalid(nt) => {
            if t.fields.contains_key(f) {
                Err(MergeConflict::NonEmptyEntryReplaced)
            } else {
                Ok(TreeView { fields: t.fields.insert(f, KindView::Struct(nt)) })
            }
        },
    }
}

/// Model of [`ValidationErrorTree::insert_list_entry`]: record the outcome of
/// validating one element, under its key, for container field `f`. Valid
/// elements and empty nested trees contribute nothing (empty trees are pruned
/// before insertion). Otherwise `f` is bound to `List` (created on first
/// failing element) and the entry added under `key`; a key whose entry
/// already holds failures, or a field bound to another shape, is a conflict.
pub open spec fn spec_insert_list_entry(
    t: TreeView,
    f: Seq<char>,
    key: u64,
    nested: OutcomeView,
) -> Result<TreeView, MergeConflict> {
    match nested {
        OutcomeView::Valid => Ok(t),
        OutcomeView::Invalid(nt) => {
            if nt.is_empty() {
                Ok(t)
            } else {
                match t.get(f) {
                    None => Ok(
                        TreeView {
                            fields: t.fields.insert(
                                f,
                                KindView::List(Map::<u64, TreeView>::empty().insert(key, nt)),
                            ),
                        },
                    ),
                    Some(KindView::List(m)) => {
                        if m.contains_key(key) && !m[key].is_empty() {
                            Err(MergeConflict::NonEmptyEntryReplaced)
                        } else {
                            Ok(
                                TreeView {
                                    fields: t.fields.insert(f, KindView::List(m.insert(key, nt))),
                                },
                            )
                        }
                    },
                    Some(_) => Err(MergeConflict::NonEmptyEntryReplaced),
                }
            }
        },
    }
}

/// Model of [`ValidationErrorTree::finalize`]: an empty tree means the record
/// is valid; anything else is invalid and carries the tree.
pub open spec fn spec_finalize(t: TreeView) -> OutcomeView {
    if t.is_empty() {
        OutcomeView::Valid
    } else {
        OutcomeView::Invalid(t)
    }
}

// Lemmas relating the association-list representation to its map model.
// Lookup is front to front: the first entry with a given key determines the
// model, which matches the executable scan.

proof fn lemma_entries_view_absent(s: Seq<(String, ValidationErrorsKind)>, f: Seq<char>)
    requires
        forall|j: int| 0 <= j < s.len() ==> (#[trigger] s[j]).0@ != f,
    ensures
        !entries_view(s).contains_key(f),
    decreases s.len(),
{
    if s.len() > 0 {
        lemma_entries_view_absent(s.drop_first(), f);
    }
}

proof fn lemma_entries_view_found(s: Seq<(String, ValidationErrorsKind)>, f: Seq<char>, i: int)
    requires
        0 <= i < s.len(),
        s[i].0@ == f,
        forall|j: int| 0 <= j < i ==> (#[trigger] s[j]).0@ != f,
    ensures
        entries_view(s).contains_key(f),
        entries_view(s)[f] == kind_view(s[i].1),
    decreases s.len(),
{
    if i > 0 {
        lemma_entries_view_found(s.drop_first(), f, i - 1);
    }
}

proof fn lemma_entries_view_push(s: Seq<(String, ValidationErrorsKind)>, p: (String, ValidationErrorsKind))
    requires
        forall|j: int| 0 <= j < s.len() ==> (#[trigger] s[j]).0@ != p.0@,
    ensures
        entries_view(s.push(p)) == entries_view(s).insert(p.0@, kind_view(p.1)),
    decreases s.len(),
{
    if s.len() == 0 {
        assert(s.push(p).drop_first() =~= s);
        assert(s.push(p).first() == p);
        assert(entries_view(s.push(p)) =~= entries_view(s).insert(p.0@, kind_view(p.1)));
    } else {
        lemma_entries_view_push(s.drop_first(), p);
        assert(s.push(p).drop_first() =~= s.drop_first().push(p));
        assert(s.push(p).first() == s.first());
        assert(entries_view(s.push(p)) =~= entries_view(s).insert(p.0@, kind_view(p.1)));
    }
}

proof fn lemma_entries_view_update(s: Seq<(String, ValidationErrorsKind)>, i: int, k: ValidationErrorsKind)
    requires
        0 <= i < s.len(),
        forall|j: int| 0 <= j < s.len() && j != i ==> (#[trigger] s[j]).0@ != s[i].0@,
    ensures
        entries_view(s.update(i, (s[i].0, k))) == entries_view(s).insert(s[i].0@, kind_view(k)),
    decreases s.len(),
{
    let s2 = s.update(i, (s[i].0, k));
    if i == 0 {
        assert(s2.drop_first() =~= s.drop_first());
        assert(s2.first() == (s[0].0, k));
        assert(entries_view(s2) =~= entries_view(s).insert(s[0].0@, kind_view(k)));
    } else {
        lemma_entries_view_update(s.drop_first(), i - 1, k);
        assert(s2.drop_first() =~= s.drop_first().update(i - 1, (s[i].0, k)));
        assert(s2.first() == s.first());
        assert(entries_view(s2) =~= entries_view(s).insert(s[i].0@, kind_view(k)));
    }
}

proof fn lemma_entries_view_len(s: Seq<(String, ValidationErrorsKind)>)
    requires
        forall|i: int, j: int| 0 <= i < j < s.len() ==> s[i].0@ != s[j].0@,
    ensures
        entries_view(s).dom().finite(),
        entries_view(s).dom().len() == s.len(),
    decreases s.len(),
{
    if s.len() > 0 {
        lemma_entries_view_len(s.drop_first());
        assert(forall|j: int| 0 <= j < s.drop_first().len()
            ==> (#[trigger] s.drop_first()[j]).0@ != s.first().0@);
        lemma_entries_view_absent(s.drop_first(), s.first().0@);
    }
}

impl ValidationErrorTree {
    /// An empty tree: the start of one record's validation.
    pub fn new() -> (t: Self)
        ensures
            t@ == TreeView::empty(),
    {
        let t = ValidationErrorTree { entries: Vec::new() };
        proof {
            assert(t@ =~= TreeView::empty());
        }
        t
    }

    /// True iff no field is bound.
    pub fn is_empty(&self) -> (r: bool)
        ensures
            r == self@.is_empty(),
    {
        proof {
            if self.entries@.len() > 0 {
                lemma_entries_view_found(self.entries@, self.entries@.first().0@, 0);
            } else {
                assert(self@.fields =~= Map::<Seq<char>, KindView>::empty());
            }
        }
        self.entries.len() == 0
    }

    /// The number of fields bound.
    pub fn len(&self) -> (n: usize)
        ensures
            n == self@.fields.dom().len(),
    {
        proof {
            use_type_invariant(&*self);
            lemma_entries_view_len(self.entries@);
        }
        self.entries.len()
    }

    /// Index of the entry for `field`, scanning from the front.
    fn find_index(&self, field: &String) -> (r: Option<usize>)
        ensures
            match r {
                Some(i) => i < self.entries@.len() && self.entries@[i as int].0@ == field@
                    && forall|j: int| 0 <= j < i ==> (#[trigger] self.entries@[j]).0@ != field@,
                None => forall|j: int|
                    0 <= j < self.entries@.len() ==> (#[trigger] self.entries@[j]).0@ != field@,
            },
    {
        let mut i: usize = 0;
        while i < self.entries.len()
            invariant
                i <= self.entries@.len(),
                forall|j: int| 0 <= j < i ==> (#[trigger] self.entries@[j]).0@ != field@,
            decreases self.entries@.len() - i,
        {
            let entry = &self.entries[i];
            if entry.0 == *field {
                return Some(i);
            }
            i = i + 1;
        }
        None
    }

    /// True iff `field` is bound to some shape.
    pub fn contains_field(&self, field: &str) -> (r: bool)
        ensures
            r == self@.fields.contains_key(field@),
    {
        let key: String = field.to_owned();
        match self.find_index(&key) {
            Some(i) => {
                proof {
                    lemma_entries_view_found(self.entries@, field@, i as int);
                }
                true
            },
            None => {
                proof {
                    lemma_entries_view_absent(self.entries@, field@);
                }
                false
            },
        }
    }

    /// The shape bound to `field`, if any.
    pub fn get(&self, field: &str) -> (r: Option<&ValidationErrorsKind>)
        ensures
            match r {
                Some(k) => self@.get(field@) == Some(k@),
                None => self@.get(field@) is None,
            },
    {
        let key: String = field.to_owned();
        match self.find_index(&key) {
            Some(i) => {
                proof {
                    lemma_entries_view_found(self.entries@, field@, i as int);
                }
                Some(&self.entries[i].1)
            },
            None => {
                proof {
                    lemma_entries_view_absent(self.entries@, field@);
                }
                None
            },
        }
    }
}

// The same association-list lemmas for the keyed entries inside a `List`
// binding.

proof fn lemma_list_view_absent(s: Seq<(u64, ValidationErrorTree)>, key: u64)
    requires
        forall|j: int| 0 <= j < s.len() ==> (#[trigger] s[j]).0 != key,
    ensures
        !list_view(s).contains_key(key),
    decreases s.len(),
{
    if s.len() > 0 {
        lemma_list_view_absent(s.drop_first(), key);
    }
}

proof fn lemma_list_view_found(s: Seq<(u64, ValidationErrorTree)>, key: u64, i: int)
    requires
        0 <= i < s.len(),
        s[i].0 == key,
        forall|j: int| 0 <= j < i ==> (#[trigger] s[j]).0 != key,
    ensures
        list_view(s).contains_key(key),
        list_view(s)[key] == tree_view(s[i].1),
    decreases s.len(),
{
    if i > 0 {
        lemma_list_view_found(s.drop_first(), key, i - 1);
    }
}

proof fn lemma_list_view_push(s: Seq<(u64, ValidationErrorTree)>, p: (u64, ValidationErrorTree))
    requires
        forall|j: int| 0 <= j < s.len() ==> (#[trigger] s[j]).0 != p.0,
    ensures
        list_view(s.push(p)) == list_view(s).insert(p.0, tree_view(p.1)),
    decreases s.len(),
{
    if s.len() == 0 {
        assert(s.push(p).drop_first() =~= s);
        assert(s.push(p).first() == p);
        assert(list_view(s.push(p)) =~= list_view(s).insert(p.0, tree_view(p.1)));
    } else {
        lemma_list_view_push(s.drop_first(), p);
        assert(s.push(p).drop_first() =~= s.drop_first().push(p));
        assert(s.push(p).first() == s.first());
        assert(list_view(s.push(p)) =~= list_view(s).insert(p.0, tree_view(p.1)));
    }
}

/// A tree's model is empty exactly when its entry list is.
proof fn lemma_tree_view_empty(t: ValidationErrorTree)
    ensures
        tree_view(t).is_empty() <==> t.entries@.len() == 0,
{
    if t.entries@.len() == 0 {
        assert(tree_view(t).fields =~= Map::<Seq<char>, KindView>::empty());
    } else {
        lemma_entries_view_found(t.entries@, t.entries@.first().0@, 0);
    }
}

/// Index of the entry for `key` in a `List` binding's entries, scanning from
/// the front.
fn list_find_index(entries: &Vec<(u64, ValidationErrorTree)>, key: u64) -> (r: Option<usize>)
    ensures
        match r {
            Some(i) => i < entries@.len() && entries@[i as int].0 == key && forall|j: int|
                0 <= j < i ==> (#[trigger] entries@[j]).0 != key,
            None => forall|j: int|
                0 <= j < entries@.len() ==> (#[trigger] entries@[j]).0 != key,
        },
{
    let mut i: usize = 0;
    while i < entries.len()
        invariant
            i <= entries@.len(),
            forall|j: int| 0 <= j < i ==> (#[trigger] entries@[j]).0 != key,
        decreases entries@.len() - i,
    {
        if entries[i].0 == key {
            return Some(i);
        }
        i = i + 1;
    }
    None
}

impl ValidationErrorTree {
    /// Records one direct failure of `field`, exactly as
    /// [`spec_insert_issue`] describes. On a conflict the tree is unchanged.
    pub fn insert_issue(&mut self, field: &str, issue: ValidationIssue) -> (r: Result<
        (),
        MergeConflict,
    >)
        ensures
            match spec_insert_issue(old(self)@, field@, issue@) {
                Ok(tv) => r == Ok::<(), MergeConflict>(()) && final(self)@ == tv,
                Err(c) => r == Err::<(), MergeConflict>(c) && final(self)@ == old(self)@,
            },
    {
        proof {
            use_type_invariant(&*self);
        }
        let key: String = field.to_owned();
        let found = self.find_index(&key);
        let ghost s0 = self.entries@;
        let mut entries: Vec<(String, ValidationErrorsKind)> = Vec::new();
        std::mem::swap(&mut entries, &mut self.entries);
        match found {
            None => {
                proof {
                    lemma_entries_view_absent(s0, field@);
                }
                let mut issues: Vec<ValidationIssue> = Vec::new();
                let ghost issue_v = issue@;
                issues.push(issue);
                entries.push((key, ValidationErrorsKind::Field(issues)));
                proof {
                    let p = entries@.last();
                    assert(entries@ =~= s0.push(p));
                    lemma_entries_view_push(s0, p);
                    assert(issues_view(p.1->Field_0@) =~= seq![issue_v]);
                }
                self.entries = entries;
                proof {
                    assert(self@ =~= spec_insert_issue(old(self)@, field@, issue@)->Ok_0);
                }
                Ok(())
            },
            Some(i) => {
                proof {
                    lemma_entries_view_found(s0, field@, i as int);
                }
                let pair = entries.remove(i);
                let k = pair.0;
                match pair.1 {
                    ValidationErrorsKind::Field(prior) => {
                        let mut issues = prior;
                        let ghost prior_s = issues@;
                        let ghost issue_v = issue@;
                        issues.push(issue);
                        entries.insert(i, (k, ValidationErrorsKind::Field(issues)));
                        proof {
                            assert(entries@ =~= s0.update(
                                i as int,
                                (s0[i as int].0, entries@[i as int].1),
                            ));
                            lemma_entries_view_update(s0, i as int, entries@[i as int].1);
                            assert(issues_view(prior_s.push(issue)) =~= issues_view(prior_s).push(
                                issue_v,
                            ));
                        }
                        self.entries = entries;
                        proof {
                            assert(self@ =~= spec_insert_issue(old(self)@, field@, issue@)->Ok_0);
                        }
                        Ok(())
                    },
                    other => {
                        entries.insert(i, (k, other));
                        proof {
                            assert(entries@ =~= s0);
                        }
                        self.entries = entries;
                        Err(MergeConflict::FieldValidationOnNonField)
                    },
                }
            },
        }
    }

    /// Embeds the outcome of validating the single nested record held by
    /// `field`, exactly as [`spec_insert_nested`] describes. On a conflict
    /// the tree is unchanged.
    pub fn insert_nested(&mut self, field: &str, nested: ValidationOutcome) -> (r: Result<
        (),
        MergeConflict,
    >)
        ensures
            match spec_insert_nested(old(self)@, field@, nested@) {
                Ok(tv) => r == Ok::<(), MergeConflict>(()) && final(self)@ == tv,
                Err(c) => r == Err::<(), MergeConflict>(c) && final(self)@ == old(self)@,
            },
    {
        proof {
            use_type_invariant(&*self);
        }
        let nt = match nested {
            ValidationOutcome::Valid => {
                return Ok(());
            },
            ValidationOutcome::Invalid(t) => t,
        };
        let key: String = field.to_owned();
        match self.find_index(&key) {
            Some(i) => {
                proof {
                    lemma_entries_view_found(self.entries@, field@, i as int);
                }
                Err(MergeConflict::NonEmptyEntryReplaced)
            },
            None => {
                proof {
                    lemma_entries_view_absent(self.entries@, field@);
                }
                let ghost s0 = self.entries@;
                let mut entries: Vec<(String, ValidationErrorsKind)> = Vec::new();
                std::mem::swap(&mut entries, &mut self.entries);
                entries.push((key, ValidationErrorsKind::Struct(nt)));
                proof {
                    let p = entries@.last();
                    assert(entries@ =~= s0.push(p));
                    lemma_entries_view_push(s0, p);
                }
                self.entries = entries;
                proof {
                    assert(self@ =~= spec_insert_nested(old(self)@, field@, nested@)->Ok_0);
                }
                Ok(())
            },
        }
    }

    /// Records the outcome of validating one container element under its key
    /// for `field`, exactly as [`spec_insert_list_entry`] describes. On a
    /// conflict the tree is unchanged.
    pub fn insert_list_entry(&mut self, field: &str, key: u64, nested: ValidationOutcome) -> (r:
        Result<(), MergeConflict>)
        ensures
            match spec_insert_list_entry(old(self)@, field@, key, nested@) {
                Ok(tv) => r == Ok::<(), MergeConflict>(()) && final(self)@ == tv,
                Err(c) => r == Err::<(), MergeConflict>(c) && final(self)@ == old(self)@,
            },
    {
        proof {
            use_type_invariant(&*self);
        }
        let nt = match nested {
            ValidationOutcome::Valid => {
                return Ok(());
            },
            ValidationOutcome::Invalid(t) => t,
        };
        proof {
            lemma_tree_view_empty(nt);
        }
        if nt.entries.len() == 0 {
            return Ok(());
        }
        let fkey: String = field.to_owned();
        let found = self.find_index(&fkey);
        let ghost s0 = self.entries@;
        match found {
            None => {
                proof {
                    lemma_entries_view_absent(s0, field@);
                }
                let mut entries: Vec<(String, ValidationErrorsKind)> = Vec::new();
                std::mem::swap(&mut entries, &mut self.entries);
                let ghost nt_v = tree_view(nt);
                let mut list: Vec<(u64, ValidationErrorTree)> = Vec::new();
                list.push((key, nt));
                entries.push((fkey, ValidationErrorsKind::List(list)));
                proof {
                    let p = entries@.last();
                    assert(entries@ =~= s0.push(p));
                    lemma_entries_view_push(s0, p);
                    assert(p.1->List_0@.drop_first() =~= Seq::<(u64, ValidationErrorTree)>::empty());
                    assert(list_view(p.1->List_0@) =~= Map::<u64, TreeView>::empty().insert(
                        key,
                        nt_v,
                    ));
                }
                self.entries = entries;
                proof {
                    let goal = spec_insert_list_entry(old(self)@, field@, key, nested@);
                    assert(self@ =~= goal->Ok_0);
                }
                Ok(())
            },
            Some(i) => {
                proof {
                    lemma_entries_view_found(s0, field@, i as int);
                }
                let mut entries: Vec<(String, ValidationErrorsKind)> = Vec::new();
                std::mem::swap(&mut entries, &mut self.entries);
                let pair = entries.remove(i);
                let k = pair.0;
                match pair.1 {
                    ValidationErrorsKind::List(prior) => {
                        let mut list = prior;
                        let ghost l0 = list@;
                        match list_find_index(&list, key) {
                            Some(li) => {
                                proof {
                                    lemma_list_view_found(l0, key, li as int);
                                    lemma_tree_view_empty(l0[li as int].1);
                                }
                                entries.insert(i, (k, ValidationErrorsKind::List(list)));
                                proof {
                                    assert(entries@ =~= s0);
                                }
                                self.entries = entries;
                                Err(MergeConflict::NonEmptyEntryReplaced)
                            },
                            None => {
                                proof {
                                    lemma_list_view_absent(l0, key);
                                }
                                list.push((key, nt));
                                entries.insert(i, (k, ValidationErrorsKind::List(list)));
                                proof {
                                    let p2 = l0.push((entries@[i as int].1->List_0@).last());
                                    assert(entries@[i as int].1->List_0@ =~= p2);
                                    lemma_list_view_push(l0, p2.last());
                                    assert(entries@ =~= s0.update(
                                        i as int,
                                        (s0[i as int].0, entries@[i as int].1),
                                    ));
                                    lemma_entries_view_update(s0, i as int, entries@[i as int].1);
                                }
                                self.entries = entries;
                                proof {
                                    let goal = spec_insert_list_entry(
                                        old(self)@,
                                        field@,
                                        key,
                                        nested@,
                                    );
                                    assert(self@ =~= goal->Ok_0);
                                }
                                Ok(())
                            },
                        }
                    },
                    other => {
                        entries.insert(i, (k, other));
                        proof {
                            assert(entries@ =~= s0);
                        }
                        self.entries = entries;
                        Err(MergeConflict::NonEmptyEntryReplaced)
                    },
                }
            },
        }
    }

    /// Wraps the finished tree into the record's outcome: valid if the tree
    /// is empty, invalid carrying the tree otherwise.
    pub fn finalize(self) -> (o: ValidationOutcome)
        ensures
            o@ == spec_finalize(self@),
    {
        if self.is_empty() {
            ValidationOutcome::Valid
        } else {
            ValidationOutcome::Invalid(self)
        }
    }
}

impl ValidationErrorsKind {
    /// For a `List` binding, the error tree recorded under `key`, if any.
    /// For the other shapes there is no keyed entry.
    pub fn list_entry(&self, key: u64) -> (r: Option<&ValidationErrorTree>)
        ensures
            match self@ {
                KindView::List(m) => match r {
                    Some(t) => m.contains_key(key) && t@ == m[key],
                    None => !m.contains_key(key),
                },
                _ => r is None,
            },
    {
        match self {
            ValidationErrorsKind::List(entries) => match list_find_index(entries, key) {
                Some(i) => {
                    proof {
                        lemma_list_view_found(entries@, key, i as int);
                    }
                    Some(&entries[i].1)
                },
                None => {
                    proof {
                        lemma_list_view_absent(entries@, key);
                    }
                    None
                },
            },
            _ => None,
        }
    }
}

impl ValidationOutcome {
    /// True iff the outcome is valid.
    pub fn is_valid(&self) -> (r: bool)
        ensures
            r == (self@ is Valid),
    {
        match self {
            ValidationOutcome::Valid => true,
            ValidationOutcome::Invalid(_) => false,
        }
    }

    /// True iff the outcome is invalid.
    pub fn is_invalid(&self) -> (r: bool)
        ensures
            r == (self@ is Invalid),
    {
        match self {
            ValidationOutcome::Valid => false,
            ValidationOutcome::Invalid(_) => true,
        }
    }

    /// Read access to the tree of an invalid outcome.
    pub fn tree(&self) -> (r: Option<&ValidationErrorTree>)
        ensures
            match self@ {
                OutcomeView::Invalid(tv) => r matches Some(t) && t@ == tv,
                OutcomeView::Valid => r is None,
            },
    {
        match self {
            ValidationOutcome::Valid => None,
            ValidationOutcome::Invalid(t) => Some(t),
        }
    }
}

} // verus!
