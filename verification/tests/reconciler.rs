use narrowing::assertion::Assertion;
use narrowing::codebase::{ClassLikeInfo, CodebaseInfo, SymbolKind};
use narrowing::comparator::{
    atomic_is_contained_by, union_is_contained_by, TypeComparisonResult, MAX_TYPE_DEPTH,
};
use narrowing::issue::{HPos, Issue, IssueKind};
use narrowing::reconciler::{
    expand_union, get_missing_type, intersect_atomic_with_atomic, reconcile, ReconciliationStatus,
};
use narrowing::types::{wrap_atomic, TAtomic, TUnion};

fn container_of(arg: TAtomic) -> TAtomic {
    TAtomic::TNamedObject {
        name: "Container".to_string(),
        type_params: Some(vec![wrap_atomic(arg)]),
        is_this: false,
        extra_types: None,
        remapped_params: false,
    }
}

fn named(name: &str) -> TAtomic {
    TAtomic::TNamedObject {
        name: name.to_string(),
        type_params: None,
        is_this: false,
        extra_types: None,
        remapped_params: false,
    }
}

fn codebase_with_container(covariant: bool) -> CodebaseInfo {
    let mut codebase = CodebaseInfo::new();
    codebase.symbols.all.insert("Container".to_string(), SymbolKind::Class);
    let mut info = ClassLikeInfo::new("Container".to_string(), SymbolKind::Class);
    if covariant {
        info.template_covariants.push(0);
    }
    codebase.classlike_infos.insert("Container".to_string(), info);
    codebase
}

fn narrow(assertion: &Assertion, existing: &TUnion) -> (TUnion, ReconciliationStatus, Vec<Issue>) {
    let codebase = CodebaseInfo::new();
    let mut issues = Vec::new();
    let mut status = ReconciliationStatus::Okay;
    let result = reconcile(
        assertion,
        Some(existing),
        false,
        &None,
        &codebase,
        &mut issues,
        false,
        None,
        &mut status,
        false,
    );
    (result, status, issues)
}

#[test]
fn asserting_a_type_keeps_that_alternative() {
    let existing = TUnion::new(vec![TAtomic::TInt, TAtomic::TString]);
    let (result, status, issues) = narrow(&Assertion::IsType(TAtomic::TInt), &existing);
    assert_eq!(result.types, vec![TAtomic::TInt]);
    assert_eq!(status, ReconciliationStatus::Okay);
    assert!(issues.is_empty());
}

#[test]
fn asserting_a_type_that_is_no_alternative_gives_nothing() {
    let existing = TUnion::new(vec![TAtomic::TString]);
    let (result, status, _) = narrow(&Assertion::IsType(TAtomic::TInt), &existing);
    assert_eq!(result.types, vec![TAtomic::TNothing]);
    assert_eq!(status, ReconciliationStatus::Empty);
}

#[test]
fn both_branches_of_a_type_check() {
    let existing = TUnion::new(vec![TAtomic::TInt, TAtomic::TString, TAtomic::TNull]);
    let condition = Assertion::IsType(TAtomic::TInt);
    let (if_type, _, _) = narrow(&condition, &existing);
    assert_eq!(if_type.types, vec![TAtomic::TInt]);
    let (else_type, status, _) = narrow(&condition.get_negation(), &existing);
    assert_eq!(else_type.types, vec![TAtomic::TString, TAtomic::TNull]);
    assert_eq!(status, ReconciliationStatus::Okay);
}

#[test]
fn covariant_argument_may_widen() {
    let codebase = codebase_with_container(true);
    let mut result = TypeComparisonResult::new();
    assert!(atomic_is_contained_by(
        &codebase,
        &container_of(TAtomic::TInt),
        &container_of(TAtomic::TArraykey),
        false,
        &mut result,
        MAX_TYPE_DEPTH,
    ));
}

#[test]
fn invariant_argument_may_not_narrow() {
    let codebase = codebase_with_container(false);
    let mut result = TypeComparisonResult::new();
    assert!(!atomic_is_contained_by(
        &codebase,
        &container_of(TAtomic::TArraykey),
        &container_of(TAtomic::TInt),
        false,
        &mut result,
        MAX_TYPE_DEPTH,
    ));
    assert_ne!(result.type_coerced, Some(true));
    assert_eq!(result.type_coerced_from_nested_mixed, Some(false));
}

#[test]
fn invariant_argument_widened_to_arraykey_is_a_coercion() {
    let codebase = codebase_with_container(false);
    let mut result = TypeComparisonResult::new();
    assert!(atomic_is_contained_by(
        &codebase,
        &container_of(TAtomic::TInt),
        &container_of(TAtomic::TArraykey),
        false,
        &mut result,
        MAX_TYPE_DEPTH,
    ));
    assert_eq!(result.type_coerced, Some(false));
    assert_eq!(result.type_coerced_from_nested_mixed, Some(true));
    assert_eq!(result.type_coerced_from_nested_any, None);
}

#[test]
fn unknown_classlikes_are_not_contained() {
    let codebase = CodebaseInfo::new();
    let mut result = TypeComparisonResult::new();
    assert!(!atomic_is_contained_by(
        &codebase,
        &container_of(TAtomic::TInt),
        &container_of(TAtomic::TArraykey),
        false,
        &mut result,
        MAX_TYPE_DEPTH,
    ));
    assert_eq!(result.type_coerced, None);
}

#[test]
fn missing_arguments_are_taken_to_be_mixed() {
    let codebase = codebase_with_container(true);
    let mut result = TypeComparisonResult::new();
    let contained = atomic_is_contained_by(
        &codebase,
        &named("Container"),
        &container_of(TAtomic::TInt),
        false,
        &mut result,
        MAX_TYPE_DEPTH,
    );
    assert!(!contained);
    assert_eq!(result.type_coerced, Some(true));
    assert_eq!(result.type_coerced_from_nested_mixed, Some(true));
    assert_eq!(result.type_coerced_from_nested_any, Some(true));
}

#[test]
fn mixed_input_is_a_coercion() {
    let codebase = CodebaseInfo::new();
    let mut result = TypeComparisonResult::new();
    let contained = union_is_contained_by(
        &codebase,
        &wrap_atomic(TAtomic::TMixed),
        &wrap_atomic(TAtomic::TInt),
        false,
        false,
        false,
        &mut result,
        MAX_TYPE_DEPTH,
    );
    assert!(!contained);
    assert_eq!(result.type_coerced, Some(true));
    assert_eq!(result.type_coerced_from_nested_any, None);
}

#[test]
fn null_can_be_ignored() {
    let codebase = CodebaseInfo::new();
    let input = TUnion::new(vec![TAtomic::TInt, TAtomic::TNull]);
    let container = wrap_atomic(TAtomic::TArraykey);
    let mut result = TypeComparisonResult::new();
    assert!(!union_is_contained_by(
        &codebase, &input, &container, false, false, false, &mut result, MAX_TYPE_DEPTH
    ));
    assert!(union_is_contained_by(
        &codebase, &input, &container, true, false, false, &mut result, MAX_TYPE_DEPTH
    ));
}

#[test]
fn type_of_an_unknown_variable() {
    assert_eq!(get_missing_type(&Assertion::IsIsset, true).types, vec![TAtomic::TMixedFromLoopIsset]);
    assert_eq!(get_missing_type(&Assertion::IsIsset, false).types, vec![TAtomic::TMixedAny]);
    assert_eq!(get_missing_type(&Assertion::ArrayKeyExists, true).types, vec![TAtomic::TMixedAny]);
    assert_eq!(get_missing_type(&Assertion::HasExactCount(2), false).types, vec![TAtomic::TMixedAny]);
    assert_eq!(
        get_missing_type(&Assertion::IsEqual(TAtomic::TLiteralInt { value: 3 }), false).types,
        vec![TAtomic::TLiteralInt { value: 3 }]
    );
    assert_eq!(get_missing_type(&Assertion::Truthy, false).types, vec![TAtomic::TMixedAny]);
}

#[test]
fn unknown_variable_leaves_the_status_alone() {
    let codebase = CodebaseInfo::new();
    let mut issues = Vec::new();
    let mut status = ReconciliationStatus::Empty;
    let result = reconcile(
        &Assertion::IsType(TAtomic::TInt),
        None,
        false,
        &None,
        &codebase,
        &mut issues,
        false,
        None,
        &mut status,
        false,
    );
    assert_eq!(result.types, vec![TAtomic::TInt]);
    assert_eq!(status, ReconciliationStatus::Empty);
}

#[test]
fn truthiness_narrows_bool_and_drops_null() {
    let existing = TUnion::new(vec![TAtomic::TBool, TAtomic::TNull, TAtomic::TString]);
    let (truthy, status, _) = narrow(&Assertion::Truthy, &existing);
    assert_eq!(truthy.types, vec![TAtomic::TTrue, TAtomic::TString]);
    assert_eq!(status, ReconciliationStatus::Okay);
    let (falsy, _, _) = narrow(&Assertion::Falsy, &existing);
    assert_eq!(falsy.types, vec![TAtomic::TFalse, TAtomic::TNull, TAtomic::TString]);
}

#[test]
fn impossible_truthiness_is_reported() {
    let codebase = CodebaseInfo::new();
    let existing = wrap_atomic(TAtomic::TNull);
    let pos = HPos {
        file_path: "a.hack".to_string(),
        start_offset: 10,
        end_offset: 12,
        start_line: 2,
        end_line: 2,
        start_column: 4,
        end_column: 6,
    };
    let mut issues = Vec::new();
    let mut status = ReconciliationStatus::Okay;
    let result = reconcile(
        &Assertion::Truthy,
        Some(&existing),
        false,
        &Some("$x".to_string()),
        &codebase,
        &mut issues,
        false,
        Some(&pos),
        &mut status,
        false,
    );
    assert_eq!(result.types, vec![TAtomic::TNothing]);
    assert_eq!(status, ReconciliationStatus::Empty);
    assert_eq!(issues.len(), 1);
    assert_eq!(issues[0].kind, IssueKind::ImpossibleTruthinessCheck);
    assert_eq!(issues[0].description, "Impossible check on $x");
    assert_eq!(issues[0].pos, pos);
}

#[test]
fn asserting_the_only_alternative_is_redundant() {
    let existing = wrap_atomic(TAtomic::TInt);
    let (result, status, issues) = narrow(&Assertion::IsType(TAtomic::TInt), &existing);
    assert_eq!(result.types, vec![TAtomic::TInt]);
    assert_eq!(status, ReconciliationStatus::Redundant);
    assert!(issues.is_empty());
}

#[test]
fn mixed_is_asserted_of_everything() {
    let existing = wrap_atomic(TAtomic::TInt);
    let (result, status, _) = narrow(&Assertion::IsType(TAtomic::TMixed), &existing);
    assert_eq!(result.types, vec![TAtomic::TMixed]);
    assert_eq!(status, ReconciliationStatus::Okay);
}

#[test]
fn literal_meets_its_type_in_the_literal() {
    let codebase = CodebaseInfo::new();
    let literal = TAtomic::TLiteralInt { value: 5 };
    assert_eq!(
        intersect_atomic_with_atomic(&TAtomic::TInt, &literal, &codebase, MAX_TYPE_DEPTH),
        Some(literal.clone())
    );
    assert_eq!(
        intersect_atomic_with_atomic(&literal, &TAtomic::TInt, &codebase, MAX_TYPE_DEPTH),
        Some(literal)
    );
    assert_eq!(
        intersect_atomic_with_atomic(&TAtomic::TString, &TAtomic::TInt, &codebase, MAX_TYPE_DEPTH),
        None
    );
}

#[test]
fn class_and_interface_meet_in_an_intersection() {
    let mut codebase = CodebaseInfo::new();
    codebase.symbols.all.insert("A".to_string(), SymbolKind::Class);
    codebase.symbols.all.insert("I".to_string(), SymbolKind::Interface);
    let meet = intersect_atomic_with_atomic(&named("A"), &named("I"), &codebase, MAX_TYPE_DEPTH);
    assert_eq!(
        meet,
        Some(TAtomic::TNamedObject {
            name: "A".to_string(),
            type_params: None,
            is_this: false,
            extra_types: Some(vec![named("I")]),
            remapped_params: false,
        })
    );
    codebase.symbols.all.insert("I".to_string(), SymbolKind::Class);
    assert_eq!(
        intersect_atomic_with_atomic(&named("A"), &named("I"), &codebase, MAX_TYPE_DEPTH),
        None
    );
}

#[test]
fn subclass_meets_its_parent_in_the_subclass() {
    let mut codebase = CodebaseInfo::new();
    codebase.symbols.all.insert("A".to_string(), SymbolKind::Class);
    codebase.symbols.all.insert("B".to_string(), SymbolKind::Class);
    let mut info = ClassLikeInfo::new("B".to_string(), SymbolKind::Class);
    info.all_parent_classes.insert("A".to_string());
    codebase.classlike_infos.insert("B".to_string(), info);
    assert!(codebase.class_extends(&"B".to_string(), &"A".to_string()));
    assert!(!codebase.class_extends(&"A".to_string(), &"B".to_string()));
    assert_eq!(
        intersect_atomic_with_atomic(&named("A"), &named("B"), &codebase, MAX_TYPE_DEPTH),
        Some(named("B"))
    );
}

#[test]
fn expanding_resolves_placeholders() {
    let open = TUnion {
        types: vec![container_of(TAtomic::TPlaceholder), TAtomic::TInt],
        had_template: false,
    };
    let expanded = expand_union(&open);
    assert_eq!(expanded.types, vec![container_of(TAtomic::TMixedAny), TAtomic::TInt]);
}

#[test]
fn expanding_keeps_each_alternative_once() {
    let open = TUnion {
        types: vec![
            container_of(TAtomic::TPlaceholder),
            container_of(TAtomic::TMixedAny),
            container_of(TAtomic::TInt),
        ],
        had_template: false,
    };
    let expanded = expand_union(&open);
    assert_eq!(
        expanded.types,
        vec![container_of(TAtomic::TMixedAny), container_of(TAtomic::TInt)]
    );
}

#[test]
fn asserted_type_comes_back_without_placeholders() {
    let codebase = codebase_with_container(true);
    let existing = wrap_atomic(TAtomic::TMixedAny);
    let mut issues = Vec::new();
    let mut status = ReconciliationStatus::Okay;
    let result = reconcile(
        &Assertion::IsType(container_of(TAtomic::TPlaceholder)),
        Some(&existing),
        false,
        &None,
        &codebase,
        &mut issues,
        false,
        None,
        &mut status,
        false,
    );
    assert_eq!(result.types, vec![container_of(TAtomic::TMixedAny)]);
    assert_eq!(status, ReconciliationStatus::Okay);
}
