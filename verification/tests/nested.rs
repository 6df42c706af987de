use std::collections::{HashMap, HashSet};
use validation_core::{
    has_error, merge_all, merge_field, merge_nested, validate_entries, validate_items,
    validate_length, validate_nested, validate_optional, validate_optional_entries,
    validate_optional_items, MergeConflict, ParamValue, Validate, ValidationErrorTree,
    ValidationErrorsKind, ValidationIssue, ValidationOutcome,
};

// The record types under validation, with hand-written `Validate` impls that
// follow the generator contract: every field-level check is merged before any
// nested traversal runs.

fn bounded_length_check(len: usize, min: u64, max: u64) -> Option<ValidationIssue> {
    if validate_length(len as u64, Some(min), Some(max), None) {
        None
    } else {
        let mut issue = ValidationIssue::new("length");
        issue.add_param("min", ParamValue::Uint(min));
        issue.add_param("max", ParamValue::Uint(max));
        Some(issue)
    }
}

fn min_length_check(len: usize, min: u64) -> Option<ValidationIssue> {
    if validate_length(len as u64, Some(min), None, None) {
        None
    } else {
        let mut issue = ValidationIssue::new("length");
        issue.add_param("min", ParamValue::Uint(min));
        Some(issue)
    }
}

// A merge conflict is a defect in the calling code's evaluation order, not a
// data problem: glue code maps it to an abort, as the engine's callers are
// expected to.
fn unwrap_merge(r: Result<ValidationOutcome, MergeConflict>) -> ValidationOutcome {
    match r {
        Ok(outcome) => outcome,
        Err(MergeConflict::NonEmptyEntryReplaced) => {
            panic!("Attempt to replace non-empty ValidationErrors entry")
        }
        Err(MergeConflict::FieldValidationOnNonField) => {
            panic!("Attempt to add field validation to a non-Field ValidationErrorsKind instance")
        }
    }
}

struct Root<'a> {
    value: String,
    a: &'a A,
}

struct A {
    value: String,
    b: B,
}

struct B {
    value: String,
}

impl Validate for Root<'_> {
    fn validate(&self) -> ValidationOutcome {
        let out = ValidationOutcome::Valid;
        let out = unwrap_merge(merge_field(
            out,
            "value",
            bounded_length_check(self.value.len(), 5, 10),
        ));
        validate_nested(out, "a", self.a)
    }
}

impl Validate for A {
    fn validate(&self) -> ValidationOutcome {
        let out = ValidationOutcome::Valid;
        let out = unwrap_merge(merge_field(
            out,
            "value",
            bounded_length_check(self.value.len(), 5, 10),
        ));
        validate_nested(out, "b", &self.b)
    }
}

impl Validate for B {
    fn validate(&self) -> ValidationOutcome {
        let out = ValidationOutcome::Valid;
        unwrap_merge(merge_field(
            out,
            "value",
            bounded_length_check(self.value.len(), 5, 10),
        ))
    }
}

#[derive(Clone, Debug, PartialEq, Eq, Hash)]
struct Child {
    value: String,
}

impl Validate for Child {
    fn validate(&self) -> ValidationOutcome {
        let out = ValidationOutcome::Valid;
        unwrap_merge(merge_field(
            out,
            "value",
            min_length_check(self.value.len(), 1),
        ))
    }
}

struct ParentWithOptionalChild {
    child: Option<Child>,
}

impl Validate for ParentWithOptionalChild {
    fn validate(&self) -> ValidationOutcome {
        validate_optional(ValidationOutcome::Valid, "child", &self.child)
    }
}

struct ParentWithLifetimeAndOptionalChild<'a> {
    child: Option<&'a Child>,
}

impl Validate for ParentWithLifetimeAndOptionalChild<'_> {
    fn validate(&self) -> ValidationOutcome {
        validate_optional(ValidationOutcome::Valid, "child", &self.child)
    }
}

struct ParentWithVectorOfChildren {
    child: Vec<Child>,
}

impl Validate for ParentWithVectorOfChildren {
    fn validate(&self) -> ValidationOutcome {
        let out = ValidationOutcome::Valid;
        let out = unwrap_merge(merge_field(
            out,
            "child",
            min_length_check(self.child.len(), 1),
        ));
        validate_items(out, "child", &self.child)
    }
}

struct ParentWithSliceOfChildren<'a> {
    child: &'a [Child],
}

impl Validate for ParentWithSliceOfChildren<'_> {
    fn validate(&self) -> ValidationOutcome {
        let out = ValidationOutcome::Valid;
        let out = unwrap_merge(merge_field(
            out,
            "child",
            min_length_check(self.child.len(), 1),
        ));
        validate_items(out, "child", self.child)
    }
}

struct ParentWithArrayOfChildren {
    child: [Child; 4],
}

impl Validate for ParentWithArrayOfChildren {
    fn validate(&self) -> ValidationOutcome {
        let out = ValidationOutcome::Valid;
        let out = unwrap_merge(merge_field(
            out,
            "child",
            min_length_check(self.child.len(), 1),
        ));
        validate_items(out, "child", &self.child)
    }
}

struct ParentWithOptionVectorOfChildren {
    child: Option<Vec<Child>>,
}

impl Validate for ParentWithOptionVectorOfChildren {
    fn validate(&self) -> ValidationOutcome {
        let out = ValidationOutcome::Valid;
        let len_check = match &self.child {
            Some(v) => min_length_check(v.len(), 1),
            None => None,
        };
        let out = unwrap_merge(merge_field(out, "child", len_check));
        validate_optional_items(out, "child", &self.child)
    }
}

struct ParentWithMapOfChildren {
    child: HashMap<i8, Child>,
}

impl Validate for ParentWithMapOfChildren {
    fn validate(&self) -> ValidationOutcome {
        let out = ValidationOutcome::Valid;
        let out = unwrap_merge(merge_field(
            out,
            "child",
            min_length_check(self.child.len(), 1),
        ));
        let entries: Vec<(u64, &Child)> =
            self.child.iter().map(|(k, v)| (*k as u64, v)).collect();
        unwrap_merge(validate_entries(out, "child", &entries))
    }
}

struct ParentWithRefMapOfChildren<'a> {
    child: &'a HashMap<i8, Child>,
}

impl Validate for ParentWithRefMapOfChildren<'_> {
    fn validate(&self) -> ValidationOutcome {
        let out = ValidationOutcome::Valid;
        let out = unwrap_merge(merge_field(
            out,
            "child",
            min_length_check(self.child.len(), 1),
        ));
        let entries: Vec<(u64, &Child)> =
            self.child.iter().map(|(k, v)| (*k as u64, v)).collect();
        unwrap_merge(validate_entries(out, "child", &entries))
    }
}

struct ParentWithOptionMapOfChildren {
    child: Option<HashMap<i8, Child>>,
}

impl Validate for ParentWithOptionMapOfChildren {
    fn validate(&self) -> ValidationOutcome {
        let out = ValidationOutcome::Valid;
        let len_check = match &self.child {
            Some(m) => min_length_check(m.len(), 1),
            None => None,
        };
        let out = unwrap_merge(merge_field(out, "child", len_check));
        let entries: Option<Vec<(u64, &Child)>> = self
            .child
            .as_ref()
            .map(|m| m.iter().map(|(k, v)| (*k as u64, v)).collect());
        unwrap_merge(validate_optional_entries(out, "child", &entries))
    }
}

struct ParentWithSetOfChildren {
    child: HashSet<Child>,
}

impl Validate for ParentWithSetOfChildren {
    fn validate(&self) -> ValidationOutcome {
        let out = ValidationOutcome::Valid;
        let out = unwrap_merge(merge_field(
            out,
            "child",
            min_length_check(self.child.len(), 1),
        ));
        let elements: Vec<&Child> = self.child.iter().collect();
        validate_items(out, "child", &elements)
    }
}

struct ParentWithRefSetOfChildren<'a> {
    child: &'a HashSet<Child>,
}

impl Validate for ParentWithRefSetOfChildren<'_> {
    fn validate(&self) -> ValidationOutcome {
        let out = ValidationOutcome::Valid;
        let out = unwrap_merge(merge_field(
            out,
            "child",
            min_length_check(self.child.len(), 1),
        ));
        let elements: Vec<&Child> = self.child.iter().collect();
        validate_items(out, "child", &elements)
    }
}

struct ParentWithOptionSetOfChildren {
    child: Option<HashSet<Child>>,
}

impl Validate for ParentWithOptionSetOfChildren {
    fn validate(&self) -> ValidationOutcome {
        let out = ValidationOutcome::Valid;
        let len_check = match &self.child {
            Some(s) => min_length_check(s.len(), 1),
            None => None,
        };
        let out = unwrap_merge(merge_field(out, "child", len_check));
        match &self.child {
            None => out,
            Some(s) => {
                let elements: Vec<&Child> = s.iter().collect();
                validate_items(out, "child", &elements)
            }
        }
    }
}

fn unwrap_map<F>(errors: &ValidationErrorTree, f: F)
where
    F: FnOnce(&ValidationErrorTree),
{
    f(errors);
}

#[test]
fn is_fine_with_nested_validations() {
    let root = Root {
        value: "valid".to_string(),
        a: &A {
            value: "valid".to_string(),
            b: B {
                value: "valid".to_string(),
            },
        },
    };

    assert!(root.validate().is_valid());
}

#[test]
fn fails_nested_validation() {
    let root = Root {
        value: "valid".to_string(),
        a: &A {
            value: "invalid value".to_string(),
            b: B {
                value: "valid".to_string(),
            },
        },
    };

    assert!(root.validate().is_invalid());

    let root = Root {
        value: "valid".to_string(),
        a: &A {
            value: "valid".to_string(),
            b: B {
                value: "invalid value".to_string(),
            },
        },
    };

    assert!(root.validate().is_invalid());
}

#[test]
fn test_can_validate_option_fields_without_lifetime() {
    let instance = ParentWithOptionalChild {
        child: Some(Child {
            value: String::new(),
        }),
    };

    let res = instance.validate();

    assert!(res.is_invalid());
    let errs = res.tree().unwrap();
    assert_eq!(errs.len(), 1);
    assert!(errs.contains_field("child"));
    if let ValidationErrorsKind::Struct(ref errs) = *errs.get("child").unwrap() {
        unwrap_map(errs, |errs| {
            assert_eq!(errs.len(), 1);
            assert!(errs.contains_field("value"));
            if let ValidationErrorsKind::Field(ref errs) = *errs.get("value").unwrap() {
                assert_eq!(errs.len(), 1);
                assert_eq!(errs[0].code, "length");
            } else {
                panic!("Expected field validation errors");
            }
        });
    } else {
        panic!("Expected struct validation errors");
    }
}

#[test]
fn test_can_validate_option_fields_with_lifetime() {
    let child = Child {
        value: String::new(),
    };

    let instance = ParentWithLifetimeAndOptionalChild {
        child: Some(&child),
    };

    let res = instance.validate();
    assert!(res.is_invalid());
    let errs = res.tree().unwrap();
    assert_eq!(errs.len(), 1);
    assert!(errs.contains_field("child"));
    if let ValidationErrorsKind::Struct(ref errs) = *errs.get("child").unwrap() {
        unwrap_map(errs, |errs| {
            assert_eq!(errs.len(), 1);
            assert!(errs.contains_field("value"));
            if let ValidationErrorsKind::Field(ref errs) = *errs.get("value").unwrap() {
                assert_eq!(errs.len(), 1);
                assert_eq!(errs[0].code, "length");
            } else {
                panic!("Expected field validation errors");
            }
        });
    } else {
        panic!("Expected struct validation errors");
    }
}

#[test]
fn test_works_with_none_values() {
    let instance = ParentWithOptionalChild { child: None };

    let res = instance.validate();
    assert!(res.is_valid());
}

#[test]
fn test_can_validate_vector_fields() {
    let instance = ParentWithVectorOfChildren {
        child: vec![
            Child {
                value: "valid".to_string(),
            },
            Child {
                value: String::new(),
            },
            Child {
                value: "valid".to_string(),
            },
            Child {
                value: String::new(),
            },
        ],
    };

    let res = instance.validate();

    assert!(res.is_invalid());
    let errs = res.tree().unwrap();
    assert_eq!(errs.len(), 1);
    assert!(errs.contains_field("child"));
    if let ValidationErrorsKind::List(_) = *errs.get("child").unwrap() {
        let list = errs.get("child").unwrap();
        assert!(list.list_entry(1).is_some());
        unwrap_map(list.list_entry(1).unwrap(), |errs| {
            assert_eq!(errs.len(), 1);
            assert!(errs.contains_field("value"));
            if let ValidationErrorsKind::Field(ref errs) = *errs.get("value").unwrap() {
                assert_eq!(errs.len(), 1);
                assert_eq!(errs[0].code, "length");
            } else {
                panic!("Expected field validation errors");
            }
        });
        assert!(list.list_entry(3).is_some());
        unwrap_map(list.list_entry(3).unwrap(), |errs| {
            assert_eq!(errs.len(), 1);
            assert!(errs.contains_field("value"));
            if let ValidationErrorsKind::Field(ref errs) = *errs.get("value").unwrap() {
                assert_eq!(errs.len(), 1);
                assert_eq!(errs[0].code, "length");
            } else {
                panic!("Expected field validation errors");
            }
        });
    } else {
        panic!("Expected list validation errors");
    }
}

#[test]
fn test_can_validate_slice_fields() {
    let child = vec![
        Child {
            value: "valid".to_string(),
        },
        Child {
            value: String::new(),
        },
        Child {
            value: "valid".to_string(),
        },
        Child {
            value: String::new(),
        },
    ];
    let instance = ParentWithSliceOfChildren { child: &child };

    let res = instance.validate();

    assert!(res.is_invalid());
    let errs = res.tree().unwrap();
    assert_eq!(errs.len(), 1);
    assert!(errs.contains_field("child"));
    if let ValidationErrorsKind::List(_) = *errs.get("child").unwrap() {
        let list = errs.get("child").unwrap();
        assert!(list.list_entry(1).is_some());
        unwrap_map(list.list_entry(1).unwrap(), |errs| {
            assert_eq!(errs.len(), 1);
            assert!(errs.contains_field("value"));
            if let ValidationErrorsKind::Field(ref errs) = *errs.get("value").unwrap() {
                assert_eq!(errs.len(), 1);
                assert_eq!(errs[0].code, "length");
            } else {
                panic!("Expected field validation errors");
            }
        });
        assert!(list.list_entry(3).is_some());
        unwrap_map(list.list_entry(3).unwrap(), |errs| {
            assert_eq!(errs.len(), 1);
            assert!(errs.contains_field("value"));
            if let ValidationErrorsKind::Field(ref errs) = *errs.get("value").unwrap() {
                assert_eq!(errs.len(), 1);
                assert_eq!(errs[0].code, "length");
            } else {
                panic!("Expected field validation errors");
            }
        });
    } else {
        panic!("Expected list validation errors");
    }
}

#[test]
fn test_can_validate_array_fields() {
    let instance = ParentWithArrayOfChildren {
        child: [
            Child {
                value: "valid".to_string(),
            },
            Child {
                value: String::new(),
            },
            Child {
                value: "valid".to_string(),
            },
            Child {
                value: String::new(),
            },
        ],
    };

    let res = instance.validate();
    assert!(res.is_invalid());
    let errs = res.tree().unwrap();
    assert_eq!(errs.len(), 1);
    assert!(errs.contains_field("child"));
    if let ValidationErrorsKind::List(_) = *errs.get("child").unwrap() {
        let list = errs.get("child").unwrap();
        assert!(list.list_entry(1).is_some());
        unwrap_map(list.list_entry(1).unwrap(), |errs| {
            assert_eq!(errs.len(), 1);
            assert!(errs.contains_field("value"));
            if let ValidationErrorsKind::Field(ref errs) = *errs.get("value").unwrap() {
                assert_eq!(errs.len(), 1);
                assert_eq!(errs[0].code, "length");
            } else {
                panic!("Expected field validation errors");
            }
        });
        assert!(list.list_entry(3).is_some());
        unwrap_map(list.list_entry(3).unwrap(), |errs| {
            assert_eq!(errs.len(), 1);
            assert!(errs.contains_field("value"));
            if let ValidationErrorsKind::Field(ref errs) = *errs.get("value").unwrap() {
                assert_eq!(errs.len(), 1);
                assert_eq!(errs[0].code, "length");
            } else {
                panic!("Expected field validation errors");
            }
        });
    } else {
        panic!("Expected list validation errors");
    }
}

#[test]
fn test_can_validate_option_vector_fields() {
    let instance = ParentWithOptionVectorOfChildren {
        child: Some(vec![
            Child {
                value: "valid".to_string(),
            },
            Child {
                value: String::new(),
            },
            Child {
                value: "valid".to_string(),
            },
            Child {
                value: String::new(),
            },
        ]),
    };

    let res = instance.validate();
    assert!(res.is_invalid());
    let errs = res.tree().unwrap();
    assert_eq!(errs.len(), 1);
    assert!(errs.contains_field("child"));
    if let ValidationErrorsKind::List(_) = *errs.get("child").unwrap() {
        let list = errs.get("child").unwrap();
        assert!(list.list_entry(1).is_some());
        unwrap_map(list.list_entry(1).unwrap(), |errs| {
            assert_eq!(errs.len(), 1);
            assert!(errs.contains_field("value"));
            if let ValidationErrorsKind::Field(ref errs) = *errs.get("value").unwrap() {
                assert_eq!(errs.len(), 1);
                assert_eq!(errs[0].code, "length");
            } else {
                panic!("Expected field validation errors");
            }
        });
        assert!(list.list_entry(3).is_some());
        unwrap_map(list.list_entry(3).unwrap(), |errs| {
            assert_eq!(errs.len(), 1);
            assert!(errs.contains_field("value"));
            if let ValidationErrorsKind::Field(ref errs) = *errs.get("value").unwrap() {
                assert_eq!(errs.len(), 1);
                assert_eq!(errs[0].code, "length");
            } else {
                panic!("Expected field validation errors");
            }
        });
    } else {
        panic!("Expected list validation errors");
    }
}

#[test]
fn test_can_validate_map_fields() {
    let instance = ParentWithMapOfChildren {
        child: [(
            0,
            Child {
                value: String::new(),
            },
        )]
        .iter()
        .cloned()
        .collect(),
    };

    let res = instance.validate();
    assert!(res.is_invalid());
    let errs = res.tree().unwrap();
    assert_eq!(errs.len(), 1);
    assert!(errs.contains_field("child"));
    if let ValidationErrorsKind::List(_) = *errs.get("child").unwrap() {
        let list = errs.get("child").unwrap();
        assert!(list.list_entry(0).is_some());
        unwrap_map(list.list_entry(0).unwrap(), |errs| {
            assert_eq!(errs.len(), 1);
            assert!(errs.contains_field("value"));
            if let ValidationErrorsKind::Field(ref errs) = *errs.get("value").unwrap() {
                assert_eq!(errs.len(), 1);
                assert_eq!(errs[0].code, "length");
            } else {
                panic!("Expected field validation errors");
            }
        });
    } else {
        panic!("Expected list validation errors");
    }
}

#[test]
fn test_can_validate_ref_map_fields() {
    let child = [(
        0,
        Child {
            value: String::new(),
        },
    )]
    .iter()
    .cloned()
    .collect();
    let instance = ParentWithRefMapOfChildren { child: &child };

    let res = instance.validate();
    assert!(res.is_invalid());
    let errs = res.tree().unwrap();
    assert_eq!(errs.len(), 1);
    assert!(errs.contains_field("child"));
    if let ValidationErrorsKind::List(_) = *errs.get("child").unwrap() {
        let list = errs.get("child").unwrap();
        assert!(list.list_entry(0).is_some());
        unwrap_map(list.list_entry(0).unwrap(), |errs| {
            assert_eq!(errs.len(), 1);
            assert!(errs.contains_field("value"));
            if let ValidationErrorsKind::Field(ref errs) = *errs.get("value").unwrap() {
                assert_eq!(errs.len(), 1);
                assert_eq!(errs[0].code, "length");
            } else {
                panic!("Expected field validation errors");
            }
        });
    } else {
        panic!("Expected list validation errors");
    }
}

#[test]
fn test_can_validate_option_map_fields() {
    let instance = ParentWithOptionMapOfChildren {
        child: Some(
            [(
                0,
                Child {
                    value: String::new(),
                },
            )]
            .iter()
            .cloned()
            .collect(),
        ),
    };

    let res = instance.validate();
    assert!(res.is_invalid());
    let errs = res.tree().unwrap();
    assert_eq!(errs.len(), 1);
    assert!(errs.contains_field("child"));
    if let ValidationErrorsKind::List(_) = *errs.get("child").unwrap() {
        let list = errs.get("child").unwrap();
        assert!(list.list_entry(0).is_some());
        unwrap_map(list.list_entry(0).unwrap(), |errs| {
            assert_eq!(errs.len(), 1);
            assert!(errs.contains_field("value"));
            if let ValidationErrorsKind::Field(ref errs) = *errs.get("value").unwrap() {
                assert_eq!(errs.len(), 1);
                assert_eq!(errs[0].code, "length");
            } else {
                panic!("Expected field validation errors");
            }
        });
    } else {
        panic!("Expected list validation errors");
    }
}

#[test]
fn test_can_validate_set_fields() {
    let instance = ParentWithSetOfChildren {
        child: [Child {
            value: String::new(),
        }]
        .iter()
        .cloned()
        .collect(),
    };

    let res = instance.validate();
    assert!(res.is_invalid());
    let errs = res.tree().unwrap();
    assert_eq!(errs.len(), 1);
    assert!(errs.contains_field("child"));
    if let ValidationErrorsKind::List(_) = *errs.get("child").unwrap() {
        let list = errs.get("child").unwrap();
        assert!(list.list_entry(0).is_some());
        unwrap_map(list.list_entry(0).unwrap(), |errs| {
            assert_eq!(errs.len(), 1);
            assert!(errs.contains_field("value"));
            if let ValidationErrorsKind::Field(ref errs) = *errs.get("value").unwrap() {
                assert_eq!(errs.len(), 1);
                assert_eq!(errs[0].code, "length");
            } else {
                panic!("Expected field validation errors");
            }
        });
    } else {
        panic!("Expected list validation errors");
    }
}

#[test]
fn test_can_validate_ref_set_fields() {
    let child = [Child {
        value: String::new(),
    }]
    .iter()
    .cloned()
    .collect();
    let instance = ParentWithRefSetOfChildren { child: &child };

    let res = instance.validate();
    assert!(res.is_invalid());
    let errs = res.tree().unwrap();
    assert_eq!(errs.len(), 1);
    assert!(errs.contains_field("child"));
    if let ValidationErrorsKind::List(_) = *errs.get("child").unwrap() {
        let list = errs.get("child").unwrap();
        assert!(list.list_entry(0).is_some());
        unwrap_map(list.list_entry(0).unwrap(), |errs| {
            assert_eq!(errs.len(), 1);
            assert!(errs.contains_field("value"));
            if let ValidationErrorsKind::Field(ref errs) = *errs.get("value").unwrap() {
                assert_eq!(errs.len(), 1);
                assert_eq!(errs[0].code, "length");
            } else {
                panic!("Expected field validation errors");
            }
        });
    } else {
        panic!("Expected list validation errors");
    }
}

#[test]
fn test_can_validate_option_set_fields() {
    let instance = ParentWithOptionSetOfChildren {
        child: Some(
            [Child {
                value: String::new(),
            }]
            .iter()
            .cloned()
            .collect(),
        ),
    };

    let res = instance.validate();
    assert!(res.is_invalid());
    let errs = res.tree().unwrap();
    assert_eq!(errs.len(), 1);
    assert!(errs.contains_field("child"));
    if let ValidationErrorsKind::List(_) = *errs.get("child").unwrap() {
        let list = errs.get("child").unwrap();
        assert!(list.list_entry(0).is_some());
        unwrap_map(list.list_entry(0).unwrap(), |errs| {
            assert_eq!(errs.len(), 1);
            assert!(errs.contains_field("value"));
            if let ValidationErrorsKind::Field(ref errs) = *errs.get("value").unwrap() {
                assert_eq!(errs.len(), 1);
                assert_eq!(errs[0].code, "length");
            } else {
                panic!("Expected field validation errors");
            }
        });
    } else {
        panic!("Expected list validation errors");
    }
}

#[test]
fn test_field_validations_take_priority_over_nested_validations() {
    let instance = ParentWithVectorOfChildren { child: Vec::new() };

    let res = instance.validate();
    assert!(res.is_invalid());
    let errs = res.tree().unwrap();
    assert_eq!(errs.len(), 1);
    assert!(errs.contains_field("child"));
    if let ValidationErrorsKind::Field(ref errs) = *errs.get("child").unwrap() {
        assert_eq!(errs.len(), 1);
        assert_eq!(errs[0].code, "length");
    } else {
        panic!("Expected field validation errors");
    }
}

struct ParentWithOverridingStructValidations {
    child: Vec<Child>,
}

impl Validate for ParentWithOverridingStructValidations {
    // Evaluating structs after fields validations have discovered errors should fail because
    // field validations are expected to take priority over nested struct validations
    fn validate(&self) -> ValidationOutcome {
        // First validate the length of the vector:
        let mut out = ValidationOutcome::Valid;
        if !validate_length(self.child.len() as u64, Some(2), None, None) {
            let mut issue = ValidationIssue::new("length");
            issue.add_param("min", ParamValue::Uint(2));
            issue.add_param("value", ParamValue::Uint(self.child.len() as u64));
            out = unwrap_merge(merge_field(out, "child", Some(issue)));
        }

        // Then merge the nested vector of structs without checking for existing field errors:
        let pairs: Vec<(u64, ValidationOutcome)> = self
            .child
            .iter()
            .enumerate()
            .map(|(i, child)| {
                let one = ValidationOutcome::Valid;
                let one = unwrap_merge(merge_nested(one, "child", child.validate()));
                (i as u64, one)
            })
            .collect();
        unwrap_merge(merge_all(out, "child", pairs))
    }
}

#[test]
#[should_panic(expected = "Attempt to replace non-empty ValidationErrors entry")]
fn test_field_validation_errors_replaced_with_nested_validations_fails() {
    let instance = ParentWithOverridingStructValidations {
        child: vec![Child {
            value: String::new(),
        }],
    };
    instance.validate();
}

struct ParentWithStructValidationsFirst {
    child: Vec<Child>,
}

impl Validate for ParentWithStructValidationsFirst {
    // Evaluating fields after their nested structs should fail because field
    // validations are expected to take priority over nested struct validations
    fn validate(&self) -> ValidationOutcome {
        // First merge the nested vector of structs:
        let mut out = ValidationOutcome::Valid;
        if !has_error(&out, "child") {
            let pairs: Vec<(u64, ValidationOutcome)> = self
                .child
                .iter()
                .enumerate()
                .map(|(i, child)| (i as u64, child.validate()))
                .collect();
            out = unwrap_merge(merge_all(out, "child", pairs));
        }

        // Then validate the length of the vector itself:
        if !validate_length(self.child.len() as u64, Some(2), None, None) {
            let mut issue = ValidationIssue::new("length");
            issue.add_param("min", ParamValue::Uint(2));
            issue.add_param("value", ParamValue::Uint(self.child.len() as u64));
            out = unwrap_merge(merge_field(out, "child", Some(issue)));
        }
        out
    }
}

#[test]
#[should_panic(
    expected = "Attempt to add field validation to a non-Field ValidationErrorsKind instance"
)]
fn test_field_validations_evaluated_after_nested_validations_fails() {
    let instance = ParentWithStructValidationsFirst {
        child: vec![Child {
            value: String::new(),
        }],
    };
    let _ = instance.validate();
}
