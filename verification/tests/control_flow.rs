use narrowing::codebase::{ClassLikeInfo, CodebaseInfo, FunctionLikeInfo, SymbolKind};
use narrowing::control::{BreakContext, ControlAction};
use narrowing::control_flow::{get_control_actions, handle_call, CallTarget, Stmt, TastInfo};
use narrowing::names::Id;
use narrowing::types::{wrap_atomic, TAtomic};
use std::collections::HashMap;

use ControlAction::{Break, Continue, End, FallThrough, LeaveSwitch, Return};

fn actions(stmts: Vec<Stmt>) -> Vec<ControlAction> {
    get_control_actions(&CodebaseInfo::new(), &HashMap::new(), &stmts, None, Vec::new(), true)
}

fn call(name: &str, at: usize) -> Stmt {
    Stmt::Expr(Some(CallTarget::Function(Id(at, name.to_string()))))
}

#[test]
fn control_passes_statements_that_do_not_leave() {
    assert_eq!(actions(vec![]), vec![FallThrough]);
    assert_eq!(actions(vec![Stmt::Other, Stmt::Expr(None), call("f", 1)]), vec![FallThrough]);
}

#[test]
fn first_leaving_statement_decides() {
    assert_eq!(actions(vec![Stmt::Return, Stmt::Break]), vec![End]);
    assert_eq!(actions(vec![Stmt::Throw]), vec![End]);
    assert_eq!(actions(vec![Stmt::Other, Stmt::Continue, Stmt::Return]), vec![Continue]);
    assert_eq!(actions(vec![Stmt::Break]), vec![Break]);
    assert_eq!(actions(vec![call("exit", 1), Stmt::Break]), vec![End]);
    assert_eq!(actions(vec![call("die", 1)]), vec![End]);
    let returned = get_control_actions(
        &CodebaseInfo::new(),
        &HashMap::new(),
        &vec![Stmt::Return],
        None,
        Vec::new(),
        false,
    );
    assert_eq!(returned, vec![Return]);
}

#[test]
fn break_leaves_what_encloses_it() {
    let stmts = vec![Stmt::Break];
    let codebase = CodebaseInfo::new();
    let names = HashMap::new();
    assert_eq!(
        get_control_actions(&codebase, &names, &stmts, None, vec![BreakContext::Loop], true),
        vec![]
    );
    assert_eq!(
        get_control_actions(
            &codebase,
            &names,
            &stmts,
            None,
            vec![BreakContext::Loop, BreakContext::Switch],
            true
        ),
        vec![LeaveSwitch]
    );
}

#[test]
fn branches_are_taken_together() {
    assert_eq!(actions(vec![Stmt::If(vec![Stmt::Return], vec![Stmt::Continue])]), vec![End, Continue]);
    assert_eq!(
        actions(vec![Stmt::If(vec![Stmt::Return], vec![]), Stmt::Continue]),
        vec![End, Continue]
    );
    assert_eq!(actions(vec![Stmt::If(vec![Stmt::Return], vec![Stmt::Other])]), vec![End, FallThrough]);
    assert_eq!(actions(vec![Stmt::Block(vec![Stmt::Return]), Stmt::Continue]), vec![End]);
    assert_eq!(actions(vec![Stmt::Block(vec![Stmt::Other]), Stmt::Continue]), vec![FallThrough, Continue]);
}

#[test]
fn loops_can_be_passed_unless_they_never_end() {
    let body = || vec![Stmt::Return];
    assert_eq!(actions(vec![Stmt::While((1, 2), body())]), vec![End, FallThrough]);
    assert_eq!(actions(vec![Stmt::Do(vec![Stmt::Break])]), vec![FallThrough]);
    assert_eq!(actions(vec![Stmt::Foreach(vec![Stmt::Continue])]), vec![Continue, FallThrough]);
    let types = TastInfo {
        expr_types: vec![((1, 2), wrap_atomic(TAtomic::TTrue)), ((3, 4), wrap_atomic(TAtomic::TBool))],
        fully_matched_switch_offsets: vec![],
    };
    let with_types = |stmts: Vec<Stmt>| {
        get_control_actions(&CodebaseInfo::new(), &HashMap::new(), &stmts, Some(&types), Vec::new(), true)
    };
    assert_eq!(with_types(vec![Stmt::While((1, 2), body())]), vec![End]);
    assert_eq!(with_types(vec![Stmt::While((3, 4), body())]), vec![End, FallThrough]);
    assert_eq!(with_types(vec![Stmt::While((5, 6), body())]), vec![End, FallThrough]);
    assert_eq!(with_types(vec![Stmt::While((1, 2), vec![Stmt::Continue])]), vec![Continue, FallThrough]);
    assert_eq!(with_types(vec![Stmt::For(None, body())]), vec![End]);
    assert_eq!(with_types(vec![Stmt::For(Some((1, 2)), body())]), vec![End]);
    assert_eq!(with_types(vec![Stmt::For(Some((3, 4)), body())]), vec![End, FallThrough]);
    assert_eq!(actions(vec![Stmt::For(None, body())]), vec![End, FallThrough]);
}

#[test]
fn switch_is_left_where_every_case_ends() {
    let ending = Stmt::Switch(vec![vec![Stmt::Return], vec![Stmt::Throw]], Some(vec![Stmt::Return]), 7);
    assert_eq!(actions(vec![ending, Stmt::Continue]), vec![End]);
    let without_default = || Stmt::Switch(vec![vec![Stmt::Return]], None, 7);
    assert_eq!(actions(vec![without_default(), Stmt::Continue]), vec![End, Continue]);
    let types = TastInfo { expr_types: vec![], fully_matched_switch_offsets: vec![7] };
    assert_eq!(
        get_control_actions(
            &CodebaseInfo::new(),
            &HashMap::new(),
            &vec![without_default(), Stmt::Continue],
            Some(&types),
            Vec::new(),
            true
        ),
        vec![End]
    );
    let breaking = Stmt::Switch(vec![vec![Stmt::Return], vec![Stmt::Break]], Some(vec![Stmt::Return]), 7);
    assert_eq!(actions(vec![breaking, Stmt::Continue]), vec![Continue]);
    let falling = Stmt::Switch(vec![vec![Stmt::Other], vec![Stmt::Return]], Some(vec![Stmt::Return]), 7);
    assert_eq!(actions(vec![falling]), vec![End, FallThrough]);
    let open_last = Stmt::Switch(vec![vec![Stmt::Return], vec![Stmt::Other]], None, 7);
    assert_eq!(actions(vec![open_last]), vec![FallThrough]);
}

#[test]
fn try_is_left_where_body_and_handlers_leave() {
    let leaving = Stmt::Try(vec![Stmt::Return], vec![vec![Stmt::Continue]], vec![]);
    assert_eq!(actions(vec![leaving, Stmt::Break]), vec![End, Continue]);
    let handler_passes = Stmt::Try(vec![Stmt::Return], vec![vec![Stmt::Other]], vec![]);
    assert_eq!(actions(vec![handler_passes, Stmt::Break]), vec![End, Break]);
    let no_handler = Stmt::Try(vec![Stmt::Return], vec![], vec![]);
    assert_eq!(actions(vec![no_handler, Stmt::Break]), vec![End]);
    let finally_leaves = Stmt::Try(vec![Stmt::Other], vec![], vec![Stmt::Continue]);
    assert_eq!(actions(vec![finally_leaves, Stmt::Break]), vec![Continue]);
    let passes = Stmt::Try(vec![Stmt::Other], vec![vec![Stmt::Return]], vec![Stmt::Other]);
    assert_eq!(actions(vec![passes]), vec![End, FallThrough]);
}

#[test]
fn call_of_what_never_returns_ends_the_function() {
    let mut codebase = CodebaseInfo::new();
    codebase.functionlike_infos.insert(
        "Ns\\fail".to_string(),
        FunctionLikeInfo { name: "fail".to_string(), return_type: Some(wrap_atomic(TAtomic::TNothing)) },
    );
    codebase.functionlike_infos.insert(
        "Ns\\run".to_string(),
        FunctionLikeInfo { name: "run".to_string(), return_type: Some(wrap_atomic(TAtomic::TInt)) },
    );
    let mut class = ClassLikeInfo::new("Ns\\Err".to_string(), SymbolKind::Class);
    class.methods.insert(
        "raise".to_string(),
        FunctionLikeInfo { name: "raise".to_string(), return_type: Some(wrap_atomic(TAtomic::TNothing)) },
    );
    class.methods.insert("log".to_string(), FunctionLikeInfo { name: "log".to_string(), return_type: None });
    codebase.classlike_infos.insert("Ns\\Err".to_string(), class);
    let mut names = HashMap::new();
    names.insert(10usize, "Ns\\fail".to_string());
    names.insert(20usize, "Ns\\run".to_string());
    names.insert(30usize, "Ns\\Err".to_string());
    let seen = vec![Continue];
    let function = |name: &str, at: usize| CallTarget::Function(Id(at, name.to_string()));
    let method = |class: &str, at: usize, name: &str| {
        CallTarget::StaticMethod(Id(at, class.to_string()), name.to_string())
    };
    assert_eq!(handle_call(&function("fail", 10), &names, &codebase, &seen), Some(vec![Continue, End]));
    assert_eq!(handle_call(&function("run", 20), &names, &codebase, &seen), None);
    assert_eq!(handle_call(&function("fail", 11), &names, &codebase, &seen), None);
    assert_eq!(handle_call(&function("exit", 99), &names, &codebase, &seen), Some(vec![Continue, End]));
    assert_eq!(handle_call(&method("Err", 30, "raise"), &names, &codebase, &seen), Some(vec![Continue, End]));
    assert_eq!(handle_call(&method("Err", 30, "log"), &names, &codebase, &seen), None);
    assert_eq!(handle_call(&method("Ns\\Err", 31, "raise"), &names, &codebase, &seen), Some(vec![Continue, End]));
    assert_eq!(handle_call(&method("self", 30, "raise"), &names, &codebase, &seen), None);
    assert_eq!(handle_call(&CallTarget::Other, &names, &codebase, &seen), None);
    let stmts = vec![Stmt::Expr(Some(function("fail", 10))), Stmt::Continue];
    assert_eq!(get_control_actions(&codebase, &names, &stmts, None, Vec::new(), true), vec![End]);
}
