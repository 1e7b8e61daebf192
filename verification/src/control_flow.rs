//! The ways in which control can leave a list of statements.
use crate::codebase::{class_info, CodebaseInfo};
use crate::control::{control_end, control_return, has_action, BreakContext, ControlAction};
use crate::names::Id;
use crate::reconciler::{always_truthy, is_always_truthy};
use crate::seq_set::{keep, lemma_keep_step, with_all, with_item};
use crate::str_map::lookup;
use crate::text::{str_same, Text};
use crate::types::{atomic_views, is_nothing_view, TUnion};
use std::collections::HashMap;
use vstd::prelude::*;
use vstd::string::*;

verus! {

broadcast use vstd::std_specs::hash::group_hash_axioms;

/// What is called by an expression that is a statement of its own.
#[derive(Debug)]
pub enum CallTarget {
    /// The function of the given name.
    Function(Id),
    /// The method, of the given name, of the class of the given name.
    StaticMethod(Id, String),
    /// Anything else.
    Other,
}

/// A statement, as far as the ways in which control leaves it depend on
/// it. A condition is known by the place at which it stands.
#[derive(Debug)]
pub enum Stmt {
    /// An expression; where it is a call, what it calls.
    Expr(Option<CallTarget>),
    Break,
    Continue,
    Throw,
    Return,
    If(Vec<Stmt>, Vec<Stmt>),
    Do(Vec<Stmt>),
    While((usize, usize), Vec<Stmt>),
    For(Option<(usize, usize)>, Vec<Stmt>),
    Foreach(Vec<Stmt>),
    /// The cases, the default case, and the offset at which the statement
    /// starts.
    Switch(Vec<Vec<Stmt>>, Option<Vec<Stmt>>, usize),
    /// The body, the catch blocks and the finally block.
    Try(Vec<Stmt>, Vec<Vec<Stmt>>, Vec<Stmt>),
    Block(Vec<Stmt>),
    /// A statement that control passes through.
    Other,
}

/// What the analysis of the expressions has found.
#[derive(Debug)]
pub struct TastInfo {
    /// The types of expressions, by the place at which each stands.
    pub expr_types: Vec<((usize, usize), TUnion)>,
    /// The offsets of the `switch` statements whose cases cover every
    /// value.
    pub fully_matched_switch_offsets: Vec<usize>,
}

/// What the ways in which control leaves statements are judged by.
pub struct Facts {
    pub codebase: CodebaseInfo,
    pub resolved_names: Map<usize, String>,
    pub tast_info: Option<TastInfo>,
    pub return_is_exit: bool,
}

/// The type of the first expression listed for the place.
pub open spec fn expr_type_at(types: Seq<((usize, usize), TUnion)>, pos: (usize, usize), n: nat) -> Option<
    TUnion,
>
    decreases n,
{
    if n == 0 || n > types.len() {
        None
    } else {
        match expr_type_at(types, pos, (n - 1) as nat) {
            Some(t) => Some(t),
            None => if types[n - 1].0 == pos {
                Some(types[n - 1].1)
            } else {
                None
            },
        }
    }
}

/// Every value of the type is truthy.
pub open spec fn union_always_truthy(u: TUnion) -> bool {
    forall|i: int| 0 <= i < u@.types.len() ==> always_truthy(#[trigger] u@.types[i])
}

/// The condition at the place is known to hold always.
pub open spec fn holds_always(tast_info: TastInfo, pos: (usize, usize)) -> bool {
    match expr_type_at(tast_info.expr_types@, pos, tast_info.expr_types@.len()) {
        Some(t) => union_always_truthy(t),
        None => false,
    }
}

/// The function or method never returns: its declared result is
/// "nothing".
pub open spec fn never_returns(return_type: Option<TUnion>) -> bool {
    match return_type {
        Some(t) => is_nothing_view(t@),
        None => false,
    }
}

/// The call ends the program or the function: it calls `exit` or `die`,
/// or a function or method that never returns.
pub open spec fn call_ends(f: Facts, call: CallTarget) -> bool {
    match call {
        CallTarget::Function(id) => id.1@ == "exit"@ || id.1@ == "die"@ || (
        f.resolved_names.contains_key(id.0) && match lookup(
            f.codebase.functionlike_infos.entries(),
            f.resolved_names[id.0]@,
        ) {
            Some(info) => never_returns(info.return_type),
            None => false,
        }),
        CallTarget::StaticMethod(id, method) => id.1@ != "self"@ && id.1@ != "parent"@ && id.1@
            != "static"@ && match class_info(
            f.codebase,
            if f.resolved_names.contains_key(id.0) {
                f.resolved_names[id.0]@
            } else {
                id.1@
            },
        ) {
            Some(info) => match lookup(info.methods.entries(), method@) {
                Some(m) => never_returns(m.return_type),
                None => false,
            },
            None => false,
        },
        CallTarget::Other => false,
    }
}

/// The actions other than passing through.
pub open spec fn leaving() -> spec_fn(ControlAction) -> bool {
    |a: ControlAction| a != ControlAction::FallThrough
}

/// Control leaves only by ending the function.
pub open spec fn only_ends(actions: Seq<ControlAction>) -> bool {
    forall|i: int|
        0 <= i < actions.len() ==> (#[trigger] actions[i]) == ControlAction::End || actions[i]
            == ControlAction::Return
}

/// Control breaks out of the case, or goes on with the enclosing loop.
pub open spec fn breaks_out(actions: Seq<ControlAction>) -> bool {
    actions.contains(ControlAction::LeaveSwitch) || actions.contains(ControlAction::Break)
        || actions.contains(ControlAction::Continue)
}

/// How far the cases of a `switch` have been judged.
pub enum SwitchState {
    /// Some case shows that control can pass the statement.
    Passed,
    /// No case has shown it yet: whether a case ends, and the actions of
    /// the cases.
    Going(bool, Seq<ControlAction>),
}

/// The state after one more case.
pub open spec fn after_case(state: SwitchState, case_actions: Seq<ControlAction>) -> SwitchState {
    match state {
        SwitchState::Passed => SwitchState::Passed,
        SwitchState::Going(has_ended, actions) => {
            if breaks_out(case_actions) {
                SwitchState::Passed
            } else if !only_ends(case_actions) && !has_ended {
                SwitchState::Passed
            } else {
                SwitchState::Going(has_ended || only_ends(case_actions), actions + case_actions)
            }
        },
    }
}

/// How far the catch blocks of a `try` have been judged: whether the body
/// and all blocks so far are left, the actions that count at once, and
/// those that count only if all blocks are left.
pub struct CatchState {
    pub all_leave: bool,
    pub direct: Seq<ControlAction>,
    pub held: Seq<ControlAction>,
}

/// The state after one more catch block.
pub open spec fn after_catch(state: CatchState, catch_actions: Seq<ControlAction>) -> CatchState {
    let all_leave = state.all_leave && !catch_actions.contains(ControlAction::FallThrough);
    if all_leave {
        CatchState { all_leave, direct: state.direct, held: state.held + catch_actions }
    } else {
        CatchState { all_leave, direct: with_all(state.direct, catch_actions), held: state.held }
    }
}

/// The ways in which control leaves the statements: `FallThrough` where
/// it can pass them.
pub open spec fn actions_of(f: Facts, stmts: Vec<Stmt>, break_context: Seq<BreakContext>) -> Seq<
    ControlAction,
>
    decreases stmts, stmts@.len() + 1,
{
    if stmts@.len() == 0 {
        seq![ControlAction::FallThrough]
    } else {
        actions_from(f, stmts, break_context, 0, Seq::empty())
    }
}

/// The state of a `switch` after its last `n` cases, last case first.
pub open spec fn cases_judged(
    f: Facts,
    cases: Vec<Vec<Stmt>>,
    break_context: Seq<BreakContext>,
    n: nat,
) -> SwitchState
    decreases cases, n,
{
    if n == 0 || n > cases@.len() {
        SwitchState::Going(false, Seq::empty())
    } else {
        after_case(
            cases_judged(f, cases, break_context, (n - 1) as nat),
            actions_of(f, cases@[cases@.len() - n], break_context),
        )
    }
}

/// The state of a `try` after its first `n` catch blocks.
pub open spec fn catches_judged(
    f: Facts,
    catches: Vec<Vec<Stmt>>,
    break_context: Seq<BreakContext>,
    n: nat,
    start: CatchState,
) -> CatchState
    decreases catches, n,
{
    if n == 0 || n > catches@.len() {
        start
    } else {
        after_catch(
            catches_judged(f, catches, break_context, (n - 1) as nat, start),
            actions_of(f, catches@[n - 1], break_context),
        )
    }
}

/// The ways in which control leaves the statements from the one at `i`
/// on, given the ways `acc` in which it leaves the earlier ones.
pub open spec fn actions_from(
    f: Facts,
    stmts: Vec<Stmt>,
    break_context: Seq<BreakContext>,
    i: nat,
    acc: Seq<ControlAction>,
) -> Seq<ControlAction>
    decreases stmts, stmts@.len() - i,
{
    if i >= stmts@.len() {
        with_item(acc, ControlAction::FallThrough)
    } else {
        let next = i + 1;
        match stmts@[i as int] {
            Stmt::Expr(call) => match call {
                Some(c) => if call_ends(f, c) {
                    with_item(acc, ControlAction::End)
                } else {
                    actions_from(f, stmts, break_context, next, acc)
                },
                None => actions_from(f, stmts, break_context, next, acc),
            },
            Stmt::Break => if break_context.len() > 0 {
                if break_context.last() == BreakContext::Switch {
                    with_item(acc, ControlAction::LeaveSwitch)
                } else {
                    acc
                }
            } else {
                with_item(acc, ControlAction::Break)
            },
            Stmt::Continue => with_item(acc, ControlAction::Continue),
            Stmt::Throw => with_item(acc, ControlAction::End),
            Stmt::Return => if f.return_is_exit {
                with_item(acc, ControlAction::End)
            } else {
                with_item(acc, ControlAction::Return)
            },
            Stmt::If(then_stmts, else_stmts) => {
                let then_actions = actions_of(f, then_stmts, break_context);
                let else_actions = actions_of(f, else_stmts, break_context);
                let all = with_all(with_all(acc, then_actions), else_actions);
                if !then_actions.contains(ControlAction::FallThrough) && !else_actions.contains(
                    ControlAction::FallThrough,
                ) {
                    all
                } else {
                    actions_from(f, stmts, break_context, next, keep(all, leaving()))
                }
            },
            Stmt::Do(body) => {
                let all = keep(
                    with_all(acc, actions_of(f, body, break_context.push(BreakContext::Loop))),
                    leaving(),
                );
                actions_from(f, stmts, break_context, next, all)
            },
            Stmt::Foreach(body) => {
                let all = keep(
                    with_all(acc, actions_of(f, body, break_context.push(BreakContext::Loop))),
                    leaving(),
                );
                actions_from(f, stmts, break_context, next, all)
            },
            Stmt::While(condition, body) => {
                let all = keep(
                    with_all(acc, actions_of(f, body, break_context.push(BreakContext::Loop))),
                    leaving(),
                );
                if f.tast_info is Some && holds_always(f.tast_info->0, condition) && only_ends(all) {
                    all
                } else {
                    actions_from(f, stmts, break_context, next, all)
                }
            },
            Stmt::For(condition, body) => {
                let all = keep(
                    with_all(acc, actions_of(f, body, break_context.push(BreakContext::Loop))),
                    leaving(),
                );
                if f.tast_info is Some && (condition is None || holds_always(
                    f.tast_info->0,
                    condition->0,
                )) && only_ends(all) {
                    all
                } else {
                    actions_from(f, stmts, break_context, next, all)
                }
            },
            Stmt::Switch(cases, default_case, offset) => {
                let inner = break_context.push(BreakContext::Switch);
                let after_cases = cases_judged(f, cases, inner, cases@.len());
                let after_default = match default_case {
                    Some(d) => after_case(after_cases, actions_of(f, d, inner)),
                    None => after_cases,
                };
                match after_default {
                    SwitchState::Passed => actions_from(f, stmts, break_context, next, acc),
                    SwitchState::Going(_, case_actions) => {
                        let all = with_all(acc, case_actions);
                        if default_case is Some || (f.tast_info is Some
                            && f.tast_info->0.fully_matched_switch_offsets@.contains(offset)) {
                            all
                        } else {
                            actions_from(f, stmts, break_context, next, all)
                        }
                    },
                }
            },
            Stmt::Try(body, catches, finally) => {
                let try_actions = actions_of(f, body, break_context);
                let try_leaves = !try_actions.contains(ControlAction::FallThrough);
                let caught = catches_judged(
                    f,
                    catches,
                    break_context,
                    catches@.len(),
                    CatchState { all_leave: try_leaves, direct: acc, held: Seq::empty() },
                );
                if catches@.len() > 0 && caught.all_leave {
                    with_all(with_all(caught.direct, try_actions), caught.held)
                } else if catches@.len() == 0 && try_leaves {
                    with_all(acc, try_actions)
                } else {
                    let finally_actions = actions_of(f, finally, break_context);
                    if finally@.len() > 0 && !finally_actions.contains(ControlAction::FallThrough) {
                        with_all(keep(caught.direct, leaving()), finally_actions)
                    } else {
                        actions_from(
                            f,
                            stmts,
                            break_context,
                            next,
                            keep(with_all(caught.direct, try_actions), leaving()),
                        )
                    }
                }
            },
            Stmt::Block(block) => {
                let block_actions = actions_of(f, block, break_context);
                if !block_actions.contains(ControlAction::FallThrough) {
                    with_all(keep(acc, leaving()), block_actions)
                } else {
                    actions_from(f, stmts, break_context, next, with_all(acc, block_actions))
                }
            },
            Stmt::Other => actions_from(f, stmts, break_context, next, acc),
        }
    }
}

/// Once control is known to pass a `switch`, further cases change
/// nothing.
proof fn lemma_passed_stays(
    f: Facts,
    cases: Vec<Vec<Stmt>>,
    break_context: Seq<BreakContext>,
    n: nat,
    m: nat,
)
    requires
        n <= m <= cases@.len(),
        cases_judged(f, cases, break_context, n) is Passed,
    ensures
        cases_judged(f, cases, break_context, m) is Passed,
    decreases m,
{
    if n < m {
        lemma_passed_stays(f, cases, break_context, n, (m - 1) as nat);
    }
}

/// The facts as the analysis is given them.
pub open spec fn facts_of(
    codebase: CodebaseInfo,
    resolved_names: HashMap<usize, String>,
    tast_info: Option<&TastInfo>,
    return_is_exit: bool,
) -> Facts {
    Facts {
        codebase,
        resolved_names: resolved_names@,
        tast_info: match tast_info {
            Some(t) => Some(*t),
            None => None,
        },
        return_is_exit,
    }
}

/// Adds every action of `more` that is not listed yet.
fn add_actions(actions: &mut Vec<ControlAction>, more: &Vec<ControlAction>)
    ensures
        final(actions)@ == with_all(old(actions)@, more@),
{
    let mut i: usize = 0;
    assert(more@.take(0) =~= Seq::<ControlAction>::empty());
    while i < more.len()
        invariant
            i <= more.len(),
            actions@ == with_all(old(actions)@, more@.take(i as int)),
        decreases more.len() - i,
    {
        proof {
            let t = more@.take(i as int + 1);
            assert(t.drop_last() =~= more@.take(i as int));
            assert(t.last() == more@[i as int]);
        }
        if !has_action(actions, more[i]) {
            actions.push(more[i]);
        }
        i += 1;
    }
    assert(more@.take(i as int) =~= more@);
}

/// The actions other than passing through.
fn leaving_actions(actions: &Vec<ControlAction>) -> (r: Vec<ControlAction>)
    ensures
        r@ == keep(actions@, leaving()),
{
    let mut r: Vec<ControlAction> = Vec::new();
    let mut i: usize = 0;
    assert(actions@.take(0) =~= Seq::<ControlAction>::empty());
    while i < actions.len()
        invariant
            i <= actions.len(),
            r@ == keep(actions@.take(i as int), leaving()),
        decreases actions.len() - i,
    {
        proof {
            lemma_keep_step(actions@, leaving(), i as int);
        }
        if actions[i] != ControlAction::FallThrough {
            r.push(actions[i]);
        }
        i += 1;
    }
    assert(actions@.take(i as int) =~= actions@);
    r
}

/// Appends the actions of `more`.
fn append_actions(actions: &mut Vec<ControlAction>, more: &Vec<ControlAction>)
    ensures
        final(actions)@ == old(actions)@ + more@,
{
    let mut i: usize = 0;
    assert(more@.take(0) =~= Seq::<ControlAction>::empty());
    assert(actions@ =~= old(actions)@ + more@.take(0));
    while i < more.len()
        invariant
            i <= more.len(),
            actions@ == old(actions)@ + more@.take(i as int),
        decreases more.len() - i,
    {
        actions.push(more[i]);
        assert(actions@ =~= old(actions)@ + more@.take(i as int + 1));
        i += 1;
    }
    assert(more@.take(i as int) =~= more@);
}

/// True when control leaves only by ending the function.
fn ends_only(actions: &Vec<ControlAction>) -> (r: bool)
    ensures
        r == only_ends(actions@),
{
    let mut i: usize = 0;
    while i < actions.len()
        invariant
            i <= actions.len(),
            forall|j: int|
                0 <= j < i ==> (#[trigger] actions@[j]) == ControlAction::End || actions@[j]
                    == ControlAction::Return,
        decreases actions.len() - i,
    {
        if actions[i] != ControlAction::End && actions[i] != ControlAction::Return {
            return false;
        }
        i += 1;
    }
    true
}

/// The break contexts with one more.
fn inside(break_context: &Vec<BreakContext>, innermost: BreakContext) -> (r: Vec<BreakContext>)
    ensures
        r@ == break_context@.push(innermost),
{
    let mut r: Vec<BreakContext> = Vec::new();
    let mut i: usize = 0;
    while i < break_context.len()
        invariant
            i <= break_context.len(),
            r@ == break_context@.take(i as int),
        decreases break_context.len() - i,
    {
        let copy = match break_context[i] {
            BreakContext::Switch => BreakContext::Switch,
            BreakContext::Loop => BreakContext::Loop,
        };
        r.push(copy);
        assert(r@ =~= break_context@.take(i as int + 1));
        i += 1;
    }
    assert(break_context@.take(i as int) =~= break_context@);
    r.push(innermost);
    r
}

/// True when every value of the type is truthy.
fn is_union_always_truthy(u: &TUnion) -> (r: bool)
    ensures
        r == union_always_truthy(*u),
{
    proof {
        crate::types::lemma_union_view(*u);
    }
    let mut i: usize = 0;
    while i < u.types.len()
        invariant
            i <= u.types.len(),
            u@.types == atomic_views(u.types@),
            forall|j: int| 0 <= j < i ==> always_truthy(#[trigger] u@.types[j]),
        decreases u.types.len() - i,
    {
        assert(u@.types[i as int] == u.types@[i as int]@);
        if !is_always_truthy(&u.types[i]) {
            return false;
        }
        i += 1;
    }
    true
}

/// True when the condition at the place is known to hold always.
fn always_holds(tast_info: &TastInfo, pos: (usize, usize)) -> (r: bool)
    ensures
        r == holds_always(*tast_info, pos),
{
    let ghost types = tast_info.expr_types@;
    let mut i: usize = 0;
    while i < tast_info.expr_types.len()
        invariant
            i <= tast_info.expr_types.len(),
            types == tast_info.expr_types@,
            expr_type_at(types, pos, i as nat) is None,
        decreases tast_info.expr_types.len() - i,
    {
        if tast_info.expr_types[i].0.0 == pos.0 && tast_info.expr_types[i].0.1 == pos.1 {
            proof {
                lemma_type_found(types, pos, i as int, types.len());
            }
            return is_union_always_truthy(&tast_info.expr_types[i].1);
        }
        i += 1;
    }
    false
}

/// Once found among the first entries, the type stays.
proof fn lemma_type_found(types: Seq<((usize, usize), TUnion)>, pos: (usize, usize), i: int, n: nat)
    requires
        0 <= i < n <= types.len(),
        expr_type_at(types, pos, i as nat) is None,
        types[i].0 == pos,
    ensures
        expr_type_at(types, pos, n) == Some(types[i].1),
    decreases n,
{
    if n > i + 1 {
        lemma_type_found(types, pos, i, (n - 1) as nat);
    }
}

/// True when the offset is listed.
fn has_offset(offsets: &Vec<usize>, offset: usize) -> (r: bool)
    ensures
        r == offsets@.contains(offset),
{
    let mut i: usize = 0;
    while i < offsets.len()
        invariant
            i <= offsets.len(),
            forall|j: int| 0 <= j < i ==> offsets@[j] != offset,
        decreases offsets.len() - i,
    {
        if offsets[i] == offset {
            return true;
        }
        i += 1;
    }
    false
}

/// True when the declared result is "nothing".
fn returns_nothing(return_type: &Option<TUnion>) -> (r: bool)
    ensures
        r == never_returns(*return_type),
{
    match return_type {
        Some(t) => t.is_nothing(),
        None => false,
    }
}

/// True when the call ends the program or the function.
fn call_never_returns(
    call: &CallTarget,
    resolved_names: &HashMap<usize, String>,
    codebase: &CodebaseInfo,
) -> (r: bool)
    requires
        codebase.wf(),
    ensures
        forall|tast_info: Option<&TastInfo>, return_is_exit: bool|
            r == call_ends(
                #[trigger] facts_of(*codebase, *resolved_names, tast_info, return_is_exit),
                *call,
            ),
{
    match call {
        CallTarget::Function(id) => {
            if str_same(id.1.as_str(), "exit") || str_same(id.1.as_str(), "die") {
                return true;
            }
            match resolved_names.get(&id.0) {
                Some(resolved_name) => match codebase.functionlike_infos.get(
                    resolved_name.as_str(),
                ) {
                    Some(info) => returns_nothing(&info.return_type),
                    None => false,
                },
                None => false,
            }
        },
        CallTarget::StaticMethod(id, method) => {
            if str_same(id.1.as_str(), "self") || str_same(id.1.as_str(), "parent") || str_same(
                id.1.as_str(),
                "static",
            ) {
                return false;
            }
            let name = match resolved_names.get(&id.0) {
                Some(fq_name) => fq_name,
                None => &id.1,
            };
            match codebase.classlike(name.as_str()) {
                Some(info) => match info.methods.get(method.as_str()) {
                    Some(m) => returns_nothing(&m.return_type),
                    None => false,
                },
                None => false,
            }
        },
        CallTarget::Other => false,
    }
}

/// A copy of a list of actions.
fn clone_actions(actions: &Vec<ControlAction>) -> (r: Vec<ControlAction>)
    ensures
        r@ == actions@,
{
    let mut r: Vec<ControlAction> = Vec::new();
    append_actions(&mut r, actions);
    assert(r@ =~= actions@);
    r
}

/// Where the call ends the program or the function: the actions with the
/// end of the function among them. None for any other call.
pub fn handle_call(
    call: &CallTarget,
    resolved_names: &HashMap<usize, String>,
    codebase: &CodebaseInfo,
    control_actions: &Vec<ControlAction>,
) -> (r: Option<Vec<ControlAction>>)
    requires
        codebase.wf(),
    ensures
        forall|tast_info: Option<&TastInfo>, return_is_exit: bool|
            match r {
                Some(actions) => call_ends(
                    #[trigger] facts_of(*codebase, *resolved_names, tast_info, return_is_exit),
                    *call,
                ) && actions@ == with_item(control_actions@, ControlAction::End),
                None => !call_ends(
                    #[trigger] facts_of(*codebase, *resolved_names, tast_info, return_is_exit),
                    *call,
                ),
            },
{
    if call_never_returns(call, resolved_names, codebase) {
        Some(control_end(clone_actions(control_actions)))
    } else {
        None
    }
}

/// The state of a `switch` after all of its cases, last case first; none
/// where some case shows that control can pass the statement.
fn judge_cases(
    codebase: &CodebaseInfo,
    resolved_names: &HashMap<usize, String>,
    cases: &Vec<Vec<Stmt>>,
    tast_info: Option<&TastInfo>,
    break_context: &Vec<BreakContext>,
    return_is_exit: bool,
) -> (r: Option<(bool, Vec<ControlAction>)>)
    requires
        codebase.wf(),
    ensures
        match r {
            Some((has_ended, actions)) => cases_judged(
                facts_of(*codebase, *resolved_names, tast_info, return_is_exit),
                *cases,
                break_context@,
                cases@.len(),
            ) == SwitchState::Going(has_ended, actions@),
            None => cases_judged(
                facts_of(*codebase, *resolved_names, tast_info, return_is_exit),
                *cases,
                break_context@,
                cases@.len(),
            ) is Passed,
        },
    decreases cases, cases@.len(),
{
    let ghost f = facts_of(*codebase, *resolved_names, tast_info, return_is_exit);
    let mut has_ended = false;
    let mut all_case_actions: Vec<ControlAction> = Vec::new();
    let mut n: usize = 0;
    while n < cases.len()
        invariant
            n <= cases.len(),
            codebase.wf(),
            f == facts_of(*codebase, *resolved_names, tast_info, return_is_exit),
            cases_judged(f, *cases, break_context@, n as nat) == SwitchState::Going(
                has_ended,
                all_case_actions@,
            ),
        decreases cases.len() - n,
    {
        let case = &cases[cases.len() - 1 - n];
        let case_actions = get_control_actions(
            codebase,
            resolved_names,
            case,
            tast_info,
            inside_same(break_context),
            return_is_exit,
        );
        let case_does_end = ends_only(&case_actions);
        if has_action(&case_actions, ControlAction::LeaveSwitch) || has_action(
            &case_actions,
            ControlAction::Break,
        ) || has_action(&case_actions, ControlAction::Continue) || (!case_does_end
            && !has_ended) {
            proof {
                assert(cases_judged(f, *cases, break_context@, (n + 1) as nat) is Passed);
                lemma_passed_stays(f, *cases, break_context@, (n + 1) as nat, cases@.len());
            }
            return None;
        }
        if case_does_end {
            has_ended = true;
        }
        append_actions(&mut all_case_actions, &case_actions);
        n += 1;
    }
    Some((has_ended, all_case_actions))
}

/// A copy of the break contexts.
fn inside_same(break_context: &Vec<BreakContext>) -> (r: Vec<BreakContext>)
    ensures
        r@ == break_context@,
{
    let mut r: Vec<BreakContext> = Vec::new();
    let mut i: usize = 0;
    while i < break_context.len()
        invariant
            i <= break_context.len(),
            r@ == break_context@.take(i as int),
        decreases break_context.len() - i,
    {
        let copy = match break_context[i] {
            BreakContext::Switch => BreakContext::Switch,
            BreakContext::Loop => BreakContext::Loop,
        };
        r.push(copy);
        assert(r@ =~= break_context@.take(i as int + 1));
        i += 1;
    }
    assert(break_context@.take(i as int) =~= break_context@);
    r
}

/// The state of a `try` after all of its catch blocks. The actions that
/// count at once are added to `control_actions`; the result says whether
/// the body and all blocks are left, and holds the actions that count
/// only then.
fn judge_catches(
    codebase: &CodebaseInfo,
    resolved_names: &HashMap<usize, String>,
    catches: &Vec<Vec<Stmt>>,
    tast_info: Option<&TastInfo>,
    break_context: &Vec<BreakContext>,
    return_is_exit: bool,
    try_leaves: bool,
    control_actions: &mut Vec<ControlAction>,
) -> (r: (bool, Vec<ControlAction>))
    requires
        codebase.wf(),
    ensures
        (CatchState { all_leave: r.0, direct: final(control_actions)@, held: r.1@ })
            == catches_judged(
            facts_of(*codebase, *resolved_names, tast_info, return_is_exit),
            *catches,
            break_context@,
            catches@.len(),
            CatchState { all_leave: try_leaves, direct: old(control_actions)@, held: Seq::empty() },
        ),
    decreases catches, catches@.len(),
{
    let ghost f = facts_of(*codebase, *resolved_names, tast_info, return_is_exit);
    let ghost start = CatchState {
        all_leave: try_leaves,
        direct: control_actions@,
        held: Seq::empty(),
    };
    let mut all_catches_leave = try_leaves;
    let mut all_catch_actions: Vec<ControlAction> = Vec::new();
    let mut n: usize = 0;
    while n < catches.len()
        invariant
            n <= catches.len(),
            codebase.wf(),
            f == facts_of(*codebase, *resolved_names, tast_info, return_is_exit),
            (CatchState {
                all_leave: all_catches_leave,
                direct: control_actions@,
                held: all_catch_actions@,
            }) == catches_judged(f, *catches, break_context@, n as nat, start),
        decreases catches.len() - n,
    {
        let catch_actions = get_control_actions(
            codebase,
            resolved_names,
            &catches[n],
            tast_info,
            inside_same(break_context),
            return_is_exit,
        );
        if all_catches_leave {
            all_catches_leave = !has_action(&catch_actions, ControlAction::FallThrough);
        }
        if !all_catches_leave {
            add_actions(control_actions, &catch_actions);
        } else {
            append_actions(&mut all_catch_actions, &catch_actions);
        }
        n += 1;
    }
    (all_catches_leave, all_catch_actions)
}

/// The ways in which control leaves the statements: `FallThrough` where
/// it can pass them. `break_context` says what a `break` leaves, innermost
/// last. With `return_is_exit` a `return` counts as the end of the
/// function.
pub fn get_control_actions(
    codebase: &CodebaseInfo,
    resolved_names: &HashMap<usize, String>,
    stmts: &Vec<Stmt>,
    tast_info: Option<&TastInfo>,
    break_context: Vec<BreakContext>,
    return_is_exit: bool,
) -> (r: Vec<ControlAction>)
    requires
        codebase.wf(),
    ensures
        r@ == actions_of(
            facts_of(*codebase, *resolved_names, tast_info, return_is_exit),
            *stmts,
            break_context@,
        ),
    decreases stmts, stmts@.len() + 1,
{
    let ghost f = facts_of(*codebase, *resolved_names, tast_info, return_is_exit);
    let ghost ctx = break_context@;
    let mut control_actions: Vec<ControlAction> = Vec::new();
    if stmts.len() == 0 {
        control_actions.push(ControlAction::FallThrough);
        return control_actions;
    }
    let mut i: usize = 0;
    while i < stmts.len()
        invariant
            i <= stmts.len(),
            codebase.wf(),
            stmts@.len() > 0,
            ctx == break_context@,
            f == facts_of(*codebase, *resolved_names, tast_info, return_is_exit),
            actions_of(f, *stmts, ctx) == actions_from(f, *stmts, ctx, i as nat, control_actions@),
        decreases stmts.len() - i,
    {
        match &stmts[i] {
            Stmt::Expr(call) => {
                match call {
                    Some(c) => {
                        match handle_call(c, resolved_names, codebase, &control_actions) {
                            Some(value) => {
                                return value;
                            },
                            None => {},
                        }
                    },
                    None => {},
                }
            },
            Stmt::Break => {
                if break_context.len() > 0 {
                    if matches!(break_context[break_context.len() - 1], BreakContext::Switch) {
                        if !has_action(&control_actions, ControlAction::LeaveSwitch) {
                            control_actions.push(ControlAction::LeaveSwitch);
                        }
                    }
                    return control_actions;
                }
                if !has_action(&control_actions, ControlAction::Break) {
                    control_actions.push(ControlAction::Break);
                }
                return control_actions;
            },
            Stmt::Continue => {
                if !has_action(&control_actions, ControlAction::Continue) {
                    control_actions.push(ControlAction::Continue);
                }
                return control_actions;
            },
            Stmt::Throw => {
                return control_end(control_actions);
            },
            Stmt::Return => {
                if !return_is_exit {
                    return control_return(control_actions);
                }
                return control_end(control_actions);
            },
            Stmt::If(then_stmts, else_stmts) => {
                let if_statement_actions = get_control_actions(
                    codebase,
                    resolved_names,
                    then_stmts,
                    tast_info,
                    inside_same(&break_context),
                    return_is_exit,
                );
                let mut all_leave = !has_action(&if_statement_actions, ControlAction::FallThrough);
                let else_statement_actions = get_control_actions(
                    codebase,
                    resolved_names,
                    else_stmts,
                    tast_info,
                    inside_same(&break_context),
                    return_is_exit,
                );
                all_leave = all_leave && !has_action(
                    &else_statement_actions,
                    ControlAction::FallThrough,
                );
                add_actions(&mut control_actions, &if_statement_actions);
                add_actions(&mut control_actions, &else_statement_actions);
                if all_leave {
                    return control_actions;
                }
                control_actions = leaving_actions(&control_actions);
            },
            Stmt::Do(loop_stmts) => {
                let loop_actions = get_control_actions(
                    codebase,
                    resolved_names,
                    loop_stmts,
                    tast_info,
                    inside(&break_context, BreakContext::Loop),
                    return_is_exit,
                );
                add_actions(&mut control_actions, &loop_actions);
                control_actions = leaving_actions(&control_actions);
            },
            Stmt::Foreach(loop_stmts) => {
                let loop_actions = get_control_actions(
                    codebase,
                    resolved_names,
                    loop_stmts,
                    tast_info,
                    inside(&break_context, BreakContext::Loop),
                    return_is_exit,
                );
                add_actions(&mut control_actions, &loop_actions);
                control_actions = leaving_actions(&control_actions);
            },
            Stmt::While(condition, loop_stmts) => {
                let loop_actions = get_control_actions(
                    codebase,
                    resolved_names,
                    loop_stmts,
                    tast_info,
                    inside(&break_context, BreakContext::Loop),
                    return_is_exit,
                );
                add_actions(&mut control_actions, &loop_actions);
                control_actions = leaving_actions(&control_actions);
                match tast_info {
                    Some(types) => {
                        if always_holds(types, *condition) && ends_only(&control_actions) {
                            return control_actions;
                        }
                    },
                    None => {},
                }
            },
            Stmt::For(condition, loop_stmts) => {
                let loop_actions = get_control_actions(
                    codebase,
                    resolved_names,
                    loop_stmts,
                    tast_info,
                    inside(&break_context, BreakContext::Loop),
                    return_is_exit,
                );
                add_actions(&mut control_actions, &loop_actions);
                control_actions = leaving_actions(&control_actions);
                match tast_info {
                    Some(types) => {
                        let is_infinite_loop = match condition {
                            Some(for_cond) => always_holds(types, *for_cond),
                            None => true,
                        };
                        if is_infinite_loop && ends_only(&control_actions) {
                            return control_actions;
                        }
                    },
                    None => {},
                }
            },
            Stmt::Switch(cases, default_case, offset) => {
                let switch_break_context = inside(&break_context, BreakContext::Switch);
                let judged = judge_cases(
                    codebase,
                    resolved_names,
                    cases,
                    tast_info,
                    &switch_break_context,
                    return_is_exit,
                );
                match judged {
                    None => {},
                    Some((has_ended, all_case_actions)) => {
                        let mut all_case_actions = all_case_actions;
                        let mut passed = false;
                        match default_case {
                            Some(default_stmts) => {
                                let case_actions = get_control_actions(
                                    codebase,
                                    resolved_names,
                                    default_stmts,
                                    tast_info,
                                    inside_same(&switch_break_context),
                                    return_is_exit,
                                );
                                let case_does_end = ends_only(&case_actions);
                                if has_action(&case_actions, ControlAction::LeaveSwitch)
                                    || has_action(&case_actions, ControlAction::Break)
                                    || has_action(&case_actions, ControlAction::Continue) || (
                                !case_does_end && !has_ended) {
                                    passed = true;
                                } else {
                                    append_actions(&mut all_case_actions, &case_actions);
                                }
                            },
                            None => {},
                        }
                        if !passed {
                            add_actions(&mut control_actions, &all_case_actions);
                            let fully_matched = match tast_info {
                                Some(types) => has_offset(
                                    &types.fully_matched_switch_offsets,
                                    *offset,
                                ),
                                None => false,
                            };
                            if default_case.is_some() || fully_matched {
                                return control_actions;
                            }
                        }
                    },
                }
            },
            Stmt::Try(body, catches, finally) => {
                let try_stmt_actions = get_control_actions(
                    codebase,
                    resolved_names,
                    body,
                    tast_info,
                    inside_same(&break_context),
                    return_is_exit,
                );
                let try_leaves = !has_action(&try_stmt_actions, ControlAction::FallThrough);
                proof {
                    let start = CatchState {
                        all_leave: try_leaves,
                        direct: control_actions@,
                        held: Seq::empty(),
                    };
                    assert(catches@.len() == 0 ==> catches_judged(f, *catches, ctx, 0, start)
                        == start);
                }
                if catches.len() > 0 {
                    let (all_catches_leave, all_catch_actions) = judge_catches(
                        codebase,
                        resolved_names,
                        catches,
                        tast_info,
                        &break_context,
                        return_is_exit,
                        try_leaves,
                        &mut control_actions,
                    );
                    if all_catches_leave {
                        add_actions(&mut control_actions, &try_stmt_actions);
                        add_actions(&mut control_actions, &all_catch_actions);
                        return control_actions;
                    }
                } else if try_leaves {
                    add_actions(&mut control_actions, &try_stmt_actions);
                    return control_actions;
                }
                if finally.len() > 0 {
                    let finally_actions = get_control_actions(
                        codebase,
                        resolved_names,
                        finally,
                        tast_info,
                        inside_same(&break_context),
                        return_is_exit,
                    );
                    if !has_action(&finally_actions, ControlAction::FallThrough) {
                        control_actions = leaving_actions(&control_actions);
                        add_actions(&mut control_actions, &finally_actions);
                        return control_actions;
                    }
                }
                add_actions(&mut control_actions, &try_stmt_actions);
                control_actions = leaving_actions(&control_actions);
            },
            Stmt::Block(block_stmts) => {
                let block_actions = get_control_actions(
                    codebase,
                    resolved_names,
                    block_stmts,
                    tast_info,
                    inside_same(&break_context),
                    return_is_exit,
                );
                if !has_action(&block_actions, ControlAction::FallThrough) {
                    control_actions = leaving_actions(&control_actions);
                    add_actions(&mut control_actions, &block_actions);
                    return control_actions;
                }
                add_actions(&mut control_actions, &block_actions);
            },
            Stmt::Other => {},
        }
        i += 1;
    }
    if !has_action(&control_actions, ControlAction::FallThrough) {
        control_actions.push(ControlAction::FallThrough);
    }
    control_actions
}

} // verus!
