//! A validation-error aggregation engine.
//!
//! Records are validated field by field; failures are accumulated into a tree
//! that mirrors the shape of the data instead of stopping at the first
//! failure. The tree maps each failing field name to the shape its failures
//! take: direct issues on the field itself, the error tree of one nested
//! record, or a keyed collection of error trees for the failing elements of a
//! container. Merge operations enforce a strict priority policy: a field's own
//! failures are authoritative, and an attempt to bind a second, incompatible
//! failure shape to the same field is a protocol violation reported through a
//! distinguished conflict value.

pub mod checks;
pub mod issue;
pub mod laws;
pub mod merge;
pub mod traverse;
pub mod tree;

pub use checks::validate_length;
pub use issue::{ParamValue, ValidationIssue};
pub use merge::{has_error, merge_all, merge_field, merge_nested};
pub use traverse::{
    validate_entries, validate_items, validate_nested, validate_optional,
    validate_optional_entries, validate_optional_items, Validate,
};
pub use tree::{MergeConflict, ValidationErrorTree, ValidationErrorsKind, ValidationOutcome};
