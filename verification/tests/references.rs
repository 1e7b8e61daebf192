use narrowing::analysis_result::AnalysisResult;
use narrowing::codebase::{ClassLikeInfo, CodebaseInfo, SymbolKind};
use narrowing::ids::StrId;
use narrowing::issue::{HPos, Issue, IssueKind};
use narrowing::names::{get_id_name, get_id_str_name, Id};
use narrowing::str_map::NameSet;
use narrowing::symbol_references::{
    CodebaseDiff, FunctionContext, FunctionLikeIdentifier, SymbolReferences,
};
use std::collections::HashMap;

const E: StrId = StrId(0);

fn id(n: u32) -> StrId {
    StrId(n)
}

#[test]
fn reference_from_a_symbol_to_a_symbol() {
    let mut refs = SymbolReferences::new();
    refs.add_symbol_reference_to_symbol(id(1), id(2), false);
    refs.add_symbol_reference_to_symbol(id(1), id(3), false);
    refs.add_symbol_reference_to_symbol(id(1), id(2), false);
    refs.add_symbol_reference_to_symbol(id(4), id(2), true);
    assert_eq!(refs.symbol_references_to_symbols, vec![((id(1), E), vec![(id(2), E), (id(3), E)])]);
    assert_eq!(refs.symbol_references_to_symbols_in_signature, vec![((id(4), E), vec![(id(2), E)])]);
}

#[test]
fn reference_to_a_member_is_a_reference_to_its_classlike() {
    let mut refs = SymbolReferences::new();
    refs.add_symbol_reference_to_class_member(id(1), (id(2), id(9)), false);
    assert_eq!(
        refs.symbol_references_to_symbols,
        vec![((id(1), E), vec![(id(2), E), (id(2), id(9))])]
    );
    let mut refs = SymbolReferences::new();
    refs.add_class_member_reference_to_symbol((id(1), id(7)), id(2), true);
    assert_eq!(
        refs.symbol_references_to_symbols_in_signature,
        vec![((id(1), E), vec![(id(2), E)]), ((id(1), id(7)), vec![(id(2), E)])]
    );
    let mut refs = SymbolReferences::new();
    refs.add_class_member_reference_to_class_member((id(1), id(7)), (id(2), id(9)), false);
    assert_eq!(
        refs.symbol_references_to_symbols,
        vec![
            ((id(1), E), vec![(id(2), E)]),
            ((id(1), id(7)), vec![(id(2), E), (id(2), id(9))]),
        ]
    );
}

#[test]
fn references_are_made_from_where_the_context_says() {
    let function = FunctionContext {
        calling_functionlike_id: Some(FunctionLikeIdentifier::Function(id(5))),
        calling_class: Some(id(6)),
    };
    let method = FunctionContext {
        calling_functionlike_id: Some(FunctionLikeIdentifier::Method(id(6), id(7))),
        calling_class: Some(id(6)),
    };
    let class = FunctionContext { calling_functionlike_id: None, calling_class: Some(id(6)) };
    let nowhere = FunctionContext { calling_functionlike_id: None, calling_class: None };
    let mut refs = SymbolReferences::new();
    refs.add_reference_to_symbol(&function, id(2), false);
    refs.add_reference_to_symbol(&class, id(3), false);
    refs.add_reference_to_symbol(&nowhere, id(4), false);
    assert_eq!(
        refs.symbol_references_to_symbols,
        vec![((id(5), E), vec![(id(2), E)]), ((id(6), E), vec![(id(3), E)])]
    );
    refs.add_reference_to_class_member(&method, (id(2), id(9)), true);
    refs.add_reference_to_class_member(&nowhere, (id(2), id(9)), true);
    assert_eq!(
        refs.symbol_references_to_symbols_in_signature,
        vec![
            ((id(6), E), vec![(id(2), E)]),
            ((id(6), id(7)), vec![(id(2), E), (id(2), id(9))]),
        ]
    );
    refs.add_reference_to_overridden_class_member(&method, (id(2), id(9)));
    refs.add_reference_to_overridden_class_member(&function, (id(2), id(9)));
    refs.add_reference_to_overridden_class_member(&class, (id(2), id(8)));
    refs.add_reference_to_overridden_class_member(&nowhere, (id(2), id(8)));
    assert_eq!(
        refs.symbol_references_to_overridden_members,
        vec![
            ((id(6), id(7)), vec![(id(2), id(9))]),
            ((id(5), E), vec![(id(2), id(9))]),
            ((id(6), E), vec![(id(2), id(8))]),
        ]
    );
    assert_eq!(
        refs.get_referenced_overridden_class_members(),
        vec![(id(2), id(9)), (id(2), id(8))]
    );
    let f = FunctionLikeIdentifier::Function(id(5));
    let m = FunctionLikeIdentifier::Method(id(6), id(7));
    refs.add_reference_to_functionlike_return(f, m);
    refs.add_reference_to_functionlike_return(f, f);
    refs.add_reference_to_functionlike_return(f, m);
    refs.add_reference_to_functionlike_return(m, f);
    assert_eq!(
        refs.functionlike_references_to_functionlike_returns,
        vec![(f, vec![m, f]), (m, vec![f])]
    );
}

fn sample() -> SymbolReferences {
    let mut refs = SymbolReferences::new();
    // the signature of 2 refers to 1, that of 3 to 2, that of the member (4, 7) to 3
    refs.add_symbol_reference_to_symbol(id(2), id(1), true);
    refs.add_symbol_reference_to_symbol(id(3), id(2), true);
    refs.add_class_member_reference_to_symbol((id(4), id(7)), id(3), true);
    // the body of 5 refers to 3, that of the member (6, 8) to the member (4, 7)
    refs.add_symbol_reference_to_symbol(id(5), id(3), false);
    refs.add_class_member_reference_to_class_member((id(6), id(8)), (id(4), id(7)), false);
    refs
}

#[test]
fn referenced_symbols_are_collected_and_counted() {
    let refs = sample();
    assert_eq!(
        refs.get_referenced_symbols_and_members(),
        vec![(id(3), E), (id(4), E), (id(4), id(7)), (id(1), E), (id(2), E)]
    );
    assert_eq!(
        refs.get_referenced_symbols_and_members_with_counts(),
        vec![
            ((id(3), E), 3),
            ((id(4), E), 2),
            ((id(4), id(7)), 1),
            ((id(1), E), 1),
            ((id(2), E), 1),
        ]
    );
}

#[test]
fn invalidity_spreads_through_signatures() {
    let refs = sample();
    let diff = CodebaseDiff {
        keep: vec![],
        keep_signature: vec![(id(9), E), (id(9), id(10))],
        add_or_delete: vec![(id(1), E)],
    };
    let invalid = refs.get_invalid_symbols(&diff).unwrap();
    assert_eq!(
        invalid.invalid_symbol_and_member_signatures,
        vec![(id(1), E), (id(2), E), (id(3), E), (id(4), E), (id(4), id(7))]
    );
    assert_eq!(
        invalid.invalid_symbol_and_member_bodies,
        vec![(id(5), E), (id(6), E), (id(6), id(8)), (id(9), E), (id(9), id(10))]
    );
    assert_eq!(invalid.partially_invalid_symbols, vec![id(4), id(6), id(9)]);
    let unrelated = CodebaseDiff { keep: vec![], keep_signature: vec![], add_or_delete: vec![(id(5), E)] };
    let invalid = refs.get_invalid_symbols(&unrelated).unwrap();
    assert_eq!(invalid.invalid_symbol_and_member_signatures, vec![(id(5), E)]);
    assert!(invalid.invalid_symbol_and_member_bodies.is_empty());
    assert!(invalid.partially_invalid_symbols.is_empty());
    let nothing = CodebaseDiff { keep: vec![], keep_signature: vec![], add_or_delete: vec![] };
    assert!(refs.get_invalid_symbols(&nothing).unwrap().invalid_symbol_and_member_signatures.is_empty());
}

#[test]
fn too_costly_a_search_is_given_up() {
    let mut refs = SymbolReferences::new();
    for n in 2..5003 {
        refs.add_symbol_reference_to_symbol(id(n), id(1), true);
    }
    let diff = CodebaseDiff { keep: vec![], keep_signature: vec![], add_or_delete: vec![(id(1), E)] };
    assert!(refs.get_invalid_symbols(&diff).is_none());
    let mut refs = SymbolReferences::new();
    for n in 2..2000 {
        refs.add_symbol_reference_to_symbol(id(n), id(1), true);
    }
    assert_eq!(
        refs.get_invalid_symbols(&diff).unwrap().invalid_symbol_and_member_signatures.len(),
        1999
    );
}

#[test]
fn references_of_invalid_symbols_are_dropped() {
    let mut refs = sample();
    refs.remove_references_from_invalid_symbols(&vec![(id(2), E), (id(6), id(8)), (id(1), E)]);
    assert_eq!(
        refs.symbol_references_to_symbols,
        vec![((id(5), E), vec![(id(3), E)]), ((id(6), E), vec![(id(4), E)])]
    );
    assert_eq!(
        refs.symbol_references_to_symbols_in_signature,
        vec![((id(3), E), vec![(id(2), E)]), ((id(4), E), vec![(id(3), E)]), ((id(4), id(7)), vec![(id(3), E)])]
    );
}

#[test]
fn records_are_merged_entry_by_entry() {
    let mut refs = SymbolReferences::new();
    refs.add_symbol_reference_to_symbol(id(1), id(2), false);
    let mut other = SymbolReferences::new();
    other.add_symbol_reference_to_symbol(id(3), id(2), false);
    other.add_symbol_reference_to_symbol(id(1), id(4), false);
    other.add_symbol_reference_to_symbol(id(1), id(2), false);
    other.add_reference_to_functionlike_return(
        FunctionLikeIdentifier::Function(id(1)),
        FunctionLikeIdentifier::Function(id(2)),
    );
    refs.extend(other);
    assert_eq!(
        refs.symbol_references_to_symbols,
        vec![((id(1), E), vec![(id(2), E), (id(4), E)]), ((id(3), E), vec![(id(2), E)])]
    );
    assert!(refs.functionlike_references_to_functionlike_returns.is_empty());
}

fn issue(line: usize) -> Issue {
    Issue {
        kind: IssueKind::RedundantTypeComparison,
        description: "d".to_string(),
        pos: HPos {
            file_path: "a.hack".to_string(),
            start_offset: 0,
            end_offset: 1,
            start_line: line,
            end_line: line,
            start_column: 1,
            end_column: 2,
        },
    }
}

fn names(list: &[&str]) -> NameSet {
    let mut set = NameSet::new();
    for name in list {
        set.insert(name.to_string());
    }
    set
}

#[test]
fn results_are_merged() {
    let mut result = AnalysisResult::new();
    result.emitted_issues.insert("a.hack".to_string(), vec![issue(1)]);
    result.emitted_issues.insert("b.hack".to_string(), vec![issue(2)]);
    result.mixed_source_counts.insert("f".to_string(), names(&["x", "y"]));
    result.symbol_references.add_symbol_reference_to_symbol(id(1), id(2), false);
    let mut other = AnalysisResult::new();
    other.emitted_issues.insert("b.hack".to_string(), vec![issue(3), issue(4)]);
    other.replacements.insert("b.hack".to_string(), vec![((1, 2), "x".to_string())]);
    other.mixed_source_counts.insert("f".to_string(), names(&["z"]));
    other.mixed_source_counts.insert("g".to_string(), names(&["w"]));
    other.symbol_references.add_symbol_reference_to_symbol(id(1), id(3), false);
    result.extend(other);
    assert_eq!(result.emitted_issues.get("a.hack"), Some(&vec![issue(1)]));
    assert_eq!(result.emitted_issues.get("b.hack"), Some(&vec![issue(3), issue(4)]));
    assert_eq!(result.replacements.get("b.hack"), Some(&vec![((1, 2), "x".to_string())]));
    let f = result.mixed_source_counts.get("f").unwrap();
    assert!(f.contains("x") && f.contains("y") && f.contains("z") && !f.contains("w"));
    assert!(result.mixed_source_counts.get("g").unwrap().contains("w"));
    assert_eq!(result.mixed_source_counts.len(), 2);
    assert_eq!(
        result.symbol_references.symbol_references_to_symbols,
        vec![((id(1), E), vec![(id(2), E), (id(3), E)])]
    );
}

#[test]
fn names_stand_for_classlikes() {
    let mut codebase = CodebaseInfo::new();
    let mut child = ClassLikeInfo::new("Child".to_string(), SymbolKind::Class);
    child.direct_parent_class = Some("Base".to_string());
    codebase.classlike_infos.insert("Child".to_string(), child);
    let inside = Some("Child".to_string());
    let mut resolved = HashMap::new();
    resolved.insert(40usize, "Ns\\Other".to_string());
    let mut is_static = false;
    let name = |text: &str, at: usize| Id(at, text.to_string());
    assert_eq!(
        get_id_name(&name("self", 1), &inside, false, &codebase, &mut is_static, &resolved),
        Some("Child".to_string())
    );
    assert!(!is_static);
    assert_eq!(
        get_id_name(&name("parent", 1), &inside, false, &codebase, &mut is_static, &resolved),
        Some("Base".to_string())
    );
    assert_eq!(
        get_id_name(&name("Other", 40), &inside, false, &codebase, &mut is_static, &resolved),
        Some("Ns\\Other".to_string())
    );
    assert_eq!(get_id_name(&name("Other", 41), &inside, false, &codebase, &mut is_static, &resolved), None);
    assert_eq!(get_id_name(&name("self", 1), &None, false, &codebase, &mut is_static, &resolved), None);
    assert_eq!(
        get_id_name(&name("static", 1), &inside, true, &codebase, &mut is_static, &resolved),
        Some("Child".to_string())
    );
    assert!(!is_static);
    assert_eq!(
        get_id_name(&name("static", 1), &inside, false, &codebase, &mut is_static, &resolved),
        Some("Child".to_string())
    );
    assert!(is_static);
    assert_eq!(get_id_str_name("self", &inside, &codebase), Some("Child"));
    assert_eq!(get_id_str_name("parent", &inside, &codebase), Some("Base"));
    assert_eq!(get_id_str_name("static", &inside, &codebase), None);
    assert_eq!(get_id_str_name("Other", &inside, &codebase), Some("Other"));
    assert_eq!(get_id_str_name("self", &None, &codebase), None);
    assert_eq!(get_id_str_name("parent", &None, &codebase), None);
}
