//! How a list of statements can end.
use vstd::prelude::*;

verus! {

/// What a `break` leaves.
#[derive(Clone, PartialEq, Eq, Debug)]
pub enum BreakContext {
    Switch,
    Loop,
}

/// One way in which control leaves a list of statements.
#[derive(Clone, Copy, PartialEq, Eq, Structural, Debug, Hash)]
pub enum ControlAction {
    End,
    Break,
    BreakImmediateLoop,
    Continue,
    LeaveSwitch,
    FallThrough,
    Return,
}

/// True when `action` is one of `actions`.
pub fn has_action(actions: &Vec<ControlAction>, action: ControlAction) -> (r: bool)
    ensures
        r == actions@.contains(action),
{
    let mut i: usize = 0;
    while i < actions.len()
        invariant
            i <= actions.len(),
            forall|j: int| 0 <= j < i ==> actions@[j] != action,
        decreases actions.len() - i,
    {
        if actions[i] == action {
            return true;
        }
        i += 1;
    }
    false
}

/// The actions with `action` among them, once.
fn with_action(control_actions: Vec<ControlAction>, action: ControlAction) -> (r: Vec<
    ControlAction,
>)
    ensures
        r@ == crate::seq_set::with_item(control_actions@, action),
{
    let mut actions = control_actions;
    if !has_action(&actions, action) {
        actions.push(action);
    }
    actions
}

/// The actions, with the end of the function among them.
#[inline]
pub fn control_end(control_actions: Vec<ControlAction>) -> (r: Vec<ControlAction>)
    ensures
        r@ == crate::seq_set::with_item(control_actions@, ControlAction::End),
{
    with_action(control_actions, ControlAction::End)
}

/// The actions, with a return among them.
#[inline]
pub fn control_return(control_actions: Vec<ControlAction>) -> (r: Vec<ControlAction>)
    ensures
        r@ == crate::seq_set::with_item(control_actions@, ControlAction::Return),
{
    with_action(control_actions, ControlAction::Return)
}

} // verus!
