//! Reconciliation: narrowing a known type by one asserted fact.
use crate::assertion::{
    asserted_type, is_equality, is_negated_form, Assertion, AssertionView,
};
use crate::codebase::{class_info, is_interface, ClassLikeInfo, CodebaseInfo};
use crate::types::{atomics_eq, clone_atomic, clone_atomics, clone_unions, has_atomic};
use crate::comparator::{
    atomic_is_contained_by, atomic_outcome, fresh, or_false, union_is_contained_by, union_outcome,
    TypeComparisonResult, MAX_TYPE_DEPTH,
};
use crate::issue::{issue_views, HPos, HPosView, Issue, IssueKind, IssueView};
use crate::text::{str_same, Text};
use crate::types::{
    atomic_eq, atomic_views, get_mixed_any, get_mixed_maybe_from_loop, get_nothing,
    group_type_views, has_object_type_view, is_mixed_view, is_objecty_view, union_eq, union_of,
    with_intersection, without_placeholders, wrap_atomic, wrapped, AtomicView, TAtomic, TUnion,
    UnionView,
};
use vstd::prelude::*;
use vstd::string::*;

verus! {

/// How a reconciliation went.
#[derive(Clone, Copy, PartialEq, Eq, Structural, Debug)]
pub enum ReconciliationStatus {
    /// The type was narrowed.
    Okay,
    /// The assertion says nothing new of the type.
    Redundant,
    /// No value of the type meets the assertion: the branch is not
    /// reachable.
    Empty,
}

/// The type of a variable of which nothing is known, once the assertion
/// holds: the asserted type for an assertion of a type or a value, else
/// "mixed"; after an `isset` inside a loop, the "mixed" that says so.
pub open spec fn missing_type(a: AssertionView, inside_loop: bool) -> UnionView {
    match a {
        AssertionView::IsIsset | AssertionView::IsEqualIsset => wrapped(
            if inside_loop {
                AtomicView::TMixedFromLoopIsset
            } else {
                AtomicView::TMixedAny
            },
        ),
        AssertionView::IsEqual(t) => wrapped(t),
        AssertionView::IsType(t) => wrapped(t),
        _ => wrapped(AtomicView::TMixedAny),
    }
}

/// The type of a variable of which nothing is known, once the assertion
/// holds.
pub fn get_missing_type(assertion: &Assertion, inside_loop: bool) -> (r: TUnion)
    ensures
        r@ == missing_type(assertion@, inside_loop),
{
    match assertion {
        Assertion::IsIsset | Assertion::IsEqualIsset => get_mixed_maybe_from_loop(inside_loop),
        Assertion::ArrayKeyExists
        | Assertion::NonEmptyCountable(_)
        | Assertion::HasExactCount(_) => get_mixed_any(),
        Assertion::IsEqual(atomic) => wrap_atomic(atomic.clone()),
        Assertion::IsType(atomic) => wrap_atomic(atomic.clone()),
        _ => get_mixed_any(),
    }
}

/// The two enums have constants of the same inferred type.
pub open spec fn enums_share_value(cb: CodebaseInfo, first: Text, second: Text) -> bool {
    class_info(cb, first) is Some && class_info(cb, second) is Some && exists|i: int, j: int|
        0 <= i < class_info(cb, first)->0.constants.entries().len() && 0 <= j < class_info(
            cb,
            second,
        )->0.constants.entries().len() && same_inferred_type(
            (#[trigger] class_info(cb, first)->0.constants.entries()[i]).1,
            (#[trigger] class_info(cb, second)->0.constants.entries()[j]).1,
        )
}

/// Both constants have an inferred type, and it is the same.
pub open spec fn same_inferred_type(
    c1: crate::codebase::ConstantInfo,
    c2: crate::codebase::ConstantInfo,
) -> bool {
    c1.inferred_type is Some && c2.inferred_type is Some && c1.inferred_type->0@
        == c2.inferred_type->0@
}

/// The named object that takes its name from `t2` and its type arguments
/// from `t1`.
pub open spec fn transplanted(t1: AtomicView, t2: AtomicView) -> AtomicView {
    AtomicView::TNamedObject {
        name: t2->TNamedObject_name,
        type_params: t1->TNamedObject_type_params,
        is_this: false,
        extra_types: None,
        remapped_params: false,
    }
}

/// The template parameter with its bound replaced.
pub open spec fn with_bound(t: AtomicView, bound: UnionView) -> AtomicView {
    match t {
        AtomicView::TTemplateParam { param_name, defining_entity, extra_types, .. } => {
            AtomicView::TTemplateParam { param_name, as_type: bound, defining_entity, extra_types }
        },
        _ => t,
    }
}

/// The meet of `t1` with `t2`, which is contained in it. Where the
/// containment rests on a coercion and only `t1` has type arguments,
/// `t2` takes them over. A template parameter bounded by an object type
/// keeps its identity and has its bound narrowed. Else the meet is `t2`.
pub open spec fn contained_meet(
    cb: CodebaseInfo,
    t1: AtomicView,
    t2: AtomicView,
    generic_coercion: bool,
    depth: nat,
) -> Option<AtomicView>
    decreases depth, 1nat, 0nat,
{
    if generic_coercion && t2 is TNamedObject && t2->TNamedObject_type_params is None
        && t1 is TNamedObject && t1->TNamedObject_type_params is Some {
        Some(transplanted(t1, t2))
    } else if t2 is TNamedObject && t1 is TTemplateParam && has_object_type_view(
        t1->TTemplateParam_as_type,
    ) {
        if depth == 0 {
            None
        } else {
            match union_meet(cb, t1->TTemplateParam_as_type, t2, (depth - 1) as nat) {
                Some(bound) => Some(with_bound(t1, bound)),
                None => None,
            }
        }
    } else {
        Some(without_placeholders(t2))
    }
}

/// The type given, or the replacement that the comparison suggests.
pub open spec fn replaced_or(r: crate::comparator::ComparisonView, t: AtomicView) -> AtomicView {
    match r.replacement_atomic_type {
        Some(x) => x,
        None => t,
    }
}

/// The meet of two atomic types: the most specific type whose values are
/// values of both; none where they have no common values. Where one
/// contains the other, it is the contained one. Two enums with a
/// constant of the same value have common values. Two named objects of
/// which one is an interface meet in the first with the second as a
/// further constraint; so do a named object and a template parameter
/// bounded by object types.
pub open spec fn atomic_meet(cb: CodebaseInfo, t1: AtomicView, t2: AtomicView, depth: nat) -> Option<
    AtomicView,
>
    decreases depth, 2nat, 0nat,
{
    let allow_interface_equality = !(t1 is TNamedObject) && !(t2 is TNamedObject);
    let forward = atomic_outcome(
        cb,
        t2,
        t1,
        allow_interface_equality,
        fresh(),
        MAX_TYPE_DEPTH as nat,
    );
    let backward = atomic_outcome(
        cb,
        t1,
        t2,
        allow_interface_equality,
        fresh(),
        MAX_TYPE_DEPTH as nat,
    );
    if forward.0 {
        contained_meet(cb, t1, replaced_or(forward.1, t2), or_false(forward.1.type_coerced), depth)
    } else if backward.0 {
        contained_meet(
            cb,
            t2,
            replaced_or(backward.1, t1),
            or_false(backward.1.type_coerced),
            depth,
        )
    } else if t1 is TEnum && t2 is TEnum && enums_share_value(
        cb,
        t1->TEnum_name,
        t2->TEnum_name,
    ) {
        Some(t2)
    } else if t1 is TNamedObject && t2 is TNamedObject && (is_interface(
        cb,
        t1->TNamedObject_name,
    ) || is_interface(cb, t2->TNamedObject_name)) {
        Some(with_intersection(t1, t2))
    } else if t2 is TNamedObject && t1 is TTemplateParam && is_objecty_view(
        t1->TTemplateParam_as_type,
    ) {
        Some(with_intersection(t1, t2))
    } else if t1 is TNamedObject && t2 is TTemplateParam && is_objecty_view(
        t2->TTemplateParam_as_type,
    ) {
        Some(with_intersection(t1, t2))
    } else {
        None
    }
}

/// The list of an optional atomic type.
pub open spec fn opt_atomic_seq(o: Option<AtomicView>) -> Seq<AtomicView> {
    match o {
        Some(t) => seq![t],
        None => Seq::empty(),
    }
}

/// The meets of the first `n` alternatives with `t`, those that exist.
pub open spec fn meets(cb: CodebaseInfo, types: Seq<AtomicView>, t: AtomicView, n: nat, depth: nat) -> Seq<
    AtomicView,
>
    decreases depth, 3nat, n,
{
    if n == 0 || n > types.len() {
        Seq::empty()
    } else {
        meets(cb, types, t, (n - 1) as nat, depth) + opt_atomic_seq(
            atomic_meet(cb, types[n - 1], t, depth),
        )
    }
}

/// The meet of a union with an atomic type: the meets of its
/// alternatives; none where no alternative has one.
pub open spec fn union_meet(cb: CodebaseInfo, u: UnionView, t: AtomicView, depth: nat) -> Option<
    UnionView,
>
    decreases depth, 4nat, 0nat,
{
    let found = meets(cb, u.types, t, u.types.len(), depth);
    if found.len() > 0 {
        Some(union_of(found))
    } else {
        None
    }
}

/// True when the two classlikes have constants of the same inferred type.
fn share_value(info_1: &ClassLikeInfo, info_2: &ClassLikeInfo) -> (r: bool)
    ensures
        r == exists|i: int, j: int|
            0 <= i < info_1.constants.entries().len() && 0 <= j < info_2.constants.entries().len()
                && same_inferred_type(
                (#[trigger] info_1.constants.entries()[i]).1,
                (#[trigger] info_2.constants.entries()[j]).1,
            ),
{
    let ghost e1 = info_1.constants.entries();
    let ghost e2 = info_2.constants.entries();
    let mut i: usize = 0;
    while i < info_1.constants.len()
        invariant
            i <= e1.len(),
            e1 == info_1.constants.entries(),
            e2 == info_2.constants.entries(),
            forall|x: int, y: int|
                0 <= x < i && 0 <= y < e2.len() ==> !same_inferred_type(
                    (#[trigger] e1[x]).1,
                    (#[trigger] e2[y]).1,
                ),
        decreases e1.len() - i,
    {
        let c1 = info_1.constants.value_at(i);
        let mut j: usize = 0;
        while j < info_2.constants.len()
            invariant
                j <= e2.len(),
                i < e1.len(),
                e1 == info_1.constants.entries(),
                e2 == info_2.constants.entries(),
                *c1 == e1[i as int].1,
                forall|y: int|
                    0 <= y < j ==> !same_inferred_type(e1[i as int].1, (#[trigger] e2[y]).1),
            decreases e2.len() - j,
        {
            let c2 = info_2.constants.value_at(j);
            let same = match &c1.inferred_type {
                Some(x) => match &c2.inferred_type {
                    Some(y) => union_eq(x, y),
                    None => false,
                },
                None => false,
            };
            if same {
                assert(same_inferred_type(e1[i as int].1, e2[j as int].1));
                return true;
            }
            j += 1;
        }
        i += 1;
    }
    false
}

/// True when the two enums have constants of the same inferred type.
fn enums_have_common_value(codebase: &CodebaseInfo, first: &String, second: &String) -> (r: bool)
    requires
        codebase.wf(),
    ensures
        r == enums_share_value(*codebase, first@, second@),
{
    match codebase.classlike(first.as_str()) {
        Some(info_1) => match codebase.classlike(second.as_str()) {
            Some(info_2) => share_value(info_1, info_2),
            None => false,
        },
        None => false,
    }
}

/// The named object that takes its name from `t2` and its type arguments
/// from `t1`, where `t2` has none and `t1` has some.
fn transplant(t1: &TAtomic, t2: &TAtomic) -> (r: Option<TAtomic>)
    ensures
        match r {
            Some(t) => t2@ is TNamedObject && t2@->TNamedObject_type_params is None
                && t1@ is TNamedObject && t1@->TNamedObject_type_params is Some && t@
                == transplanted(t1@, t2@),
            None => !(t2@ is TNamedObject && t2@->TNamedObject_type_params is None
                && t1@ is TNamedObject && t1@->TNamedObject_type_params is Some),
        },
{
    broadcast use group_type_views;

    match t2 {
        TAtomic::TNamedObject { name, type_params: None, .. } => match t1 {
            TAtomic::TNamedObject { type_params: Some(type_1_params), .. } => Some(
                TAtomic::TNamedObject {
                    name: name.clone(),
                    type_params: Some(clone_unions(type_1_params)),
                    is_this: false,
                    extra_types: None,
                    remapped_params: false,
                },
            ),
            _ => None,
        },
        _ => None,
    }
}

/// The bound of a template parameter.
fn bound_of(t: &TAtomic) -> (r: Option<&TUnion>)
    ensures
        match r {
            Some(b) => t@ is TTemplateParam && t@->TTemplateParam_as_type == b@,
            None => !(t@ is TTemplateParam),
        },
{
    broadcast use group_type_views;

    match t {
        TAtomic::TTemplateParam { as_type, .. } => Some(as_type),
        _ => None,
    }
}

/// The template parameter with its bound replaced.
fn replace_bound(t: &TAtomic, bound: TUnion) -> (r: TAtomic)
    ensures
        r@ == with_bound(t@, bound@),
{
    broadcast use group_type_views;

    match t {
        TAtomic::TTemplateParam { param_name, defining_entity, extra_types, .. } => {
            TAtomic::TTemplateParam {
                param_name: param_name.clone(),
                as_type: bound,
                defining_entity: defining_entity.clone(),
                extra_types: match extra_types {
                    Some(es) => Some(clone_atomics(es)),
                    None => None,
                },
            }
        },
        _ => t.clone(),
    }
}

/// The name of a named object.
fn object_name(t: &TAtomic) -> (r: Option<&String>)
    ensures
        match r {
            Some(n) => t@ is TNamedObject && t@->TNamedObject_name == n@,
            None => !(t@ is TNamedObject),
        },
{
    broadcast use group_type_views;

    match t {
        TAtomic::TNamedObject { name, .. } => Some(name),
        _ => None,
    }
}

/// The name of an enum.
fn enum_name(t: &TAtomic) -> (r: Option<&String>)
    ensures
        match r {
            Some(n) => t@ is TEnum && t@->TEnum_name == n@,
            None => !(t@ is TEnum),
        },
{
    match t {
        TAtomic::TEnum { name } => Some(name),
        _ => None,
    }
}

/// The meet of `type_1_atomic` with `type_2_atomic`, which is contained
/// in it.
pub fn intersect_contained_atomic_with_another(
    type_1_atomic: &TAtomic,
    type_2_atomic: &TAtomic,
    codebase: &CodebaseInfo,
    generic_coercion: bool,
    depth: usize,
) -> (r: Option<TAtomic>)
    requires
        codebase.wf(),
    ensures
        match r {
            Some(t) => contained_meet(
                *codebase,
                type_1_atomic@,
                type_2_atomic@,
                generic_coercion,
                depth as nat,
            ) == Some(t@),
            None => contained_meet(
                *codebase,
                type_1_atomic@,
                type_2_atomic@,
                generic_coercion,
                depth as nat,
            ) is None,
        },
    decreases depth, 1nat, 0nat,
{
    let moved = transplant(type_1_atomic, type_2_atomic);
    if generic_coercion && moved.is_some() {
        return moved;
    }
    if object_name(type_2_atomic).is_some() {
        match bound_of(type_1_atomic) {
            Some(type_1_as_type) => {
                if type_1_as_type.has_object_type() {
                    if depth == 0 {
                        return None;
                    }
                    return match intersect_union_with_atomic(
                        codebase,
                        type_1_as_type,
                        type_2_atomic,
                        depth - 1,
                    ) {
                        Some(type_1_as) => Some(replace_bound(type_1_atomic, type_1_as)),
                        None => None,
                    };
                }
            },
            None => {},
        }
    }
    Some(type_2_atomic.clone().remove_placeholders())
}

/// The meet of two atomic types; none where they have no common values.
pub fn intersect_atomic_with_atomic(
    type_1_atomic: &TAtomic,
    type_2_atomic: &TAtomic,
    codebase: &CodebaseInfo,
    depth: usize,
) -> (r: Option<TAtomic>)
    requires
        codebase.wf(),
    ensures
        match r {
            Some(t) => atomic_meet(*codebase, type_1_atomic@, type_2_atomic@, depth as nat)
                == Some(t@),
            None => atomic_meet(*codebase, type_1_atomic@, type_2_atomic@, depth as nat) is None,
        },
    decreases depth, 2nat, 0nat,
{
    let name_1 = object_name(type_1_atomic);
    let name_2 = object_name(type_2_atomic);
    let allow_interface_equality = name_1.is_none() && name_2.is_none();
    let mut forward = TypeComparisonResult::new();
    if atomic_is_contained_by(
        codebase,
        type_2_atomic,
        type_1_atomic,
        allow_interface_equality,
        &mut forward,
        MAX_TYPE_DEPTH,
    ) {
        let coerced = match forward.type_coerced {
            Some(b) => b,
            None => false,
        };
        let contained = match forward.replacement_atomic_type {
            Some(replacement) => replacement,
            None => type_2_atomic.clone(),
        };
        return intersect_contained_atomic_with_another(
            type_1_atomic,
            &contained,
            codebase,
            coerced,
            depth,
        );
    }
    let mut backward = TypeComparisonResult::new();
    if atomic_is_contained_by(
        codebase,
        type_1_atomic,
        type_2_atomic,
        allow_interface_equality,
        &mut backward,
        MAX_TYPE_DEPTH,
    ) {
        let coerced = match backward.type_coerced {
            Some(b) => b,
            None => false,
        };
        let contained = match backward.replacement_atomic_type {
            Some(replacement) => replacement,
            None => type_1_atomic.clone(),
        };
        return intersect_contained_atomic_with_another(
            type_2_atomic,
            &contained,
            codebase,
            coerced,
            depth,
        );
    }
    match enum_name(type_1_atomic) {
        Some(type_1_name) => match enum_name(type_2_atomic) {
            Some(type_2_name) => {
                if enums_have_common_value(codebase, type_1_name, type_2_name) {
                    return Some(type_2_atomic.clone());
                }
            },
            None => {},
        },
        None => {},
    }
    match name_1 {
        Some(type_1_name) => match name_2 {
            Some(type_2_name) => {
                if codebase.interface_exists(type_1_name) || codebase.interface_exists(
                    type_2_name,
                ) {
                    return Some(
                        type_1_atomic.clone().add_intersection_type(type_2_atomic.clone()),
                    );
                }
            },
            None => {},
        },
        None => {},
    }
    if name_2.is_some() {
        match bound_of(type_1_atomic) {
            Some(as_type) => {
                if as_type.is_objecty() {
                    return Some(
                        type_1_atomic.clone().add_intersection_type(type_2_atomic.clone()),
                    );
                }
            },
            None => {},
        }
    }
    if name_1.is_some() {
        match bound_of(type_2_atomic) {
            Some(as_type) => {
                if as_type.is_objecty() {
                    return Some(
                        type_1_atomic.clone().add_intersection_type(type_2_atomic.clone()),
                    );
                }
            },
            None => {},
        }
    }
    None
}

/// The meet of a union with an atomic type: the meets of its
/// alternatives; none where no alternative has one.
pub fn intersect_union_with_atomic(
    codebase: &CodebaseInfo,
    existing_var_type: &TUnion,
    new_type: &TAtomic,
    depth: usize,
) -> (r: Option<TUnion>)
    requires
        codebase.wf(),
    ensures
        match r {
            Some(u) => union_meet(*codebase, existing_var_type@, new_type@, depth as nat) == Some(
                u@,
            ),
            None => union_meet(*codebase, existing_var_type@, new_type@, depth as nat) is None,
        },
    decreases depth, 4nat, 0nat,
{
    let ghost types = existing_var_type@.types;
    proof {
        crate::types::lemma_union_view(*existing_var_type);
    }
    let mut matching_atomic_types: Vec<TAtomic> = Vec::new();
    let mut i: usize = 0;
    assert(atomic_views(matching_atomic_types@) =~= meets(
        *codebase,
        types,
        new_type@,
        0,
        depth as nat,
    ));
    while i < existing_var_type.types.len()
        invariant
            i <= existing_var_type.types.len(),
            codebase.wf(),
            types == existing_var_type@.types,
            types == atomic_views(existing_var_type.types@),
            atomic_views(matching_atomic_types@) == meets(
                *codebase,
                types,
                new_type@,
                i as nat,
                depth as nat,
            ),
        decreases existing_var_type.types.len() - i,
    {
        let ghost before = atomic_views(matching_atomic_types@);
        assert(types[i as int] == existing_var_type.types@[i as int]@);
        match intersect_atomic_with_atomic(
            &existing_var_type.types[i],
            new_type,
            codebase,
            depth,
        ) {
            Some(intersected_atomic_type) => {
                matching_atomic_types.push(intersected_atomic_type);
                assert(atomic_views(matching_atomic_types@) =~= before.push(
                    intersected_atomic_type@,
                ));
                assert(before.push(intersected_atomic_type@) =~= meets(
                    *codebase,
                    types,
                    new_type@,
                    (i + 1) as nat,
                    depth as nat,
                ));
            },
            None => {
                assert(before =~= meets(
                    *codebase,
                    types,
                    new_type@,
                    (i + 1) as nat,
                    depth as nat,
                ));
            },
        }
        i += 1;
    }
    if matching_atomic_types.len() > 0 {
        return Some(TUnion::new(matching_atomic_types));
    }
    None
}

/// What a reconciliation comes to.
pub struct Reconciliation {
    /// The narrowed type.
    pub result: UnionView,
    /// How the reconciliation went.
    pub status: ReconciliationStatus,
    /// The diagnostics that it gives rise to.
    pub issues: Seq<IssueView>,
}

/// The kind of diagnostic for an assertion that is redundant or
/// impossible.
pub open spec fn issue_kind_for(a: AssertionView, redundant: bool) -> IssueKind {
    match a {
        AssertionView::Truthy | AssertionView::Falsy => if redundant {
            IssueKind::RedundantTruthinessCheck
        } else {
            IssueKind::ImpossibleTruthinessCheck
        },
        AssertionView::IsIsset
        | AssertionView::IsNotIsset
        | AssertionView::IsEqualIsset
        | AssertionView::IsNotEqualIsset => if redundant {
            IssueKind::RedundantIssetCheck
        } else {
            IssueKind::ImpossibleIssetCheck
        },
        _ => if redundant {
            IssueKind::RedundantTypeComparison
        } else {
            IssueKind::ImpossibleTypeComparison
        },
    }
}

/// The diagnostic for an assertion about `key` that is redundant or
/// impossible. Under negation what was redundant is impossible, and the
/// other way round.
pub open spec fn impossible_issue(
    key: Text,
    a: AssertionView,
    redundant: bool,
    negated: bool,
    pos: HPosView,
) -> IssueView {
    let redundant = redundant != negated;
    IssueView {
        kind: issue_kind_for(a, redundant),
        description: if redundant {
            "Redundant check on "@ + key
        } else {
            "Impossible check on "@ + key
        },
        pos,
    }
}

/// The diagnostic, where the variable and the place are known.
pub open spec fn diagnostic(
    key: Option<Text>,
    a: AssertionView,
    redundant: bool,
    negated: bool,
    pos: Option<HPosView>,
) -> Seq<IssueView> {
    if key is Some && pos is Some {
        seq![impossible_issue(key->0, a, redundant, negated, pos->0)]
    } else {
        Seq::empty()
    }
}

/// The value of an optional name.
pub open spec fn opt_text(o: Option<String>) -> Option<Text> {
    match o {
        Some(s) => Some(s@),
        None => None,
    }
}

/// The value of an optional place.
pub open spec fn opt_pos(o: Option<&HPos>) -> Option<HPosView> {
    match o {
        Some(p) => Some(p@),
        None => None,
    }
}

/// Reports an assertion about `key` that is redundant or impossible.
pub fn trigger_issue_for_impossible(
    issues: &mut Vec<Issue>,
    key: &String,
    assertion: &Assertion,
    redundant: bool,
    negated: bool,
    pos: &HPos,
)
    ensures
        issue_views(final(issues)@) == issue_views(old(issues)@).push(
            impossible_issue(key@, assertion@, redundant, negated, pos@),
        ),
{
    let redundant = redundant != negated;
    let kind = match assertion {
        Assertion::Truthy | Assertion::Falsy => if redundant {
            IssueKind::RedundantTruthinessCheck
        } else {
            IssueKind::ImpossibleTruthinessCheck
        },
        Assertion::IsIsset
        | Assertion::IsNotIsset
        | Assertion::IsEqualIsset
        | Assertion::IsNotEqualIsset => if redundant {
            IssueKind::RedundantIssetCheck
        } else {
            IssueKind::ImpossibleIssetCheck
        },
        _ => if redundant {
            IssueKind::RedundantTypeComparison
        } else {
            IssueKind::ImpossibleTypeComparison
        },
    };
    let description = if redundant {
        String::from_str("Redundant check on ").concat(key.as_str())
    } else {
        String::from_str("Impossible check on ").concat(key.as_str())
    };
    let ghost before = issue_views(issues@);
    let issue = Issue { kind, description, pos: pos.duplicate() };
    issues.push(issue);
    assert(issue_views(issues@) =~= before.push(issue@));
}

/// Reports the assertion where the variable and the place are known.
fn report(
    issues: &mut Vec<Issue>,
    key: &Option<String>,
    assertion: &Assertion,
    redundant: bool,
    negated: bool,
    pos: Option<&HPos>,
)
    ensures
        issue_views(final(issues)@) == issue_views(old(issues)@) + diagnostic(
            opt_text(*key),
            assertion@,
            redundant,
            negated,
            opt_pos(pos),
        ),
{
    let ghost before = issue_views(issues@);
    match key {
        Some(key) => match pos {
            Some(pos) => {
                trigger_issue_for_impossible(issues, key, assertion, redundant, negated, pos);
                assert(before.push(impossible_issue(key@, assertion@, redundant, negated, pos@))
                    =~= before + seq![
                    impossible_issue(key@, assertion@, redundant, negated, pos@),
                ]);
            },
            None => {
                assert(before =~= before + Seq::<IssueView>::empty());
            },
        },
        None => {
            assert(before =~= before + Seq::<IssueView>::empty());
        },
    }
}

/// A way of narrowing a union alternative by alternative.
pub enum Narrowing {
    /// Keep what can be truthy.
    Truthy,
    /// Keep what can be falsy.
    Falsy,
    /// Keep what is set.
    Defined,
    /// Keep what is not contained in the type.
    OtherThan(AtomicView),
    /// Keep what is not the value.
    UnequalTo(AtomicView),
}

/// The alternative is never falsy.
pub open spec fn always_truthy(a: AtomicView) -> bool {
    match a {
        AtomicView::TTrue | AtomicView::TObject | AtomicView::TNamedObject { .. } => true,
        AtomicView::TLiteralInt { value } => value != 0,
        AtomicView::TLiteralString { value } => value != ""@ && value != "0"@,
        _ => false,
    }
}

/// The alternative is never truthy.
pub open spec fn always_falsy(a: AtomicView) -> bool {
    match a {
        AtomicView::TNull | AtomicView::TFalse | AtomicView::TNothing => true,
        AtomicView::TLiteralInt { value } => value == 0,
        AtomicView::TLiteralString { value } => value == ""@ || value == "0"@,
        _ => false,
    }
}

/// What is left of one alternative under the narrowing: none where no
/// value of it is left.
pub open spec fn part(cb: CodebaseInfo, how: Narrowing, a: AtomicView) -> Option<AtomicView> {
    match how {
        Narrowing::Truthy => if always_falsy(a) {
            None
        } else if a is TBool {
            Some(AtomicView::TTrue)
        } else {
            Some(a)
        },
        Narrowing::Falsy => if always_truthy(a) {
            None
        } else if a is TBool {
            Some(AtomicView::TFalse)
        } else {
            Some(a)
        },
        Narrowing::Defined => if a is TNull {
            None
        } else {
            Some(a)
        },
        Narrowing::OtherThan(t) => if atomic_outcome(
            cb,
            a,
            t,
            false,
            fresh(),
            MAX_TYPE_DEPTH as nat,
        ).0 {
            None
        } else {
            Some(a)
        },
        Narrowing::UnequalTo(t) => if a == t {
            None
        } else {
            Some(a)
        },
    }
}

/// What is left of the first `n` alternatives under the narrowing.
pub open spec fn parts(cb: CodebaseInfo, how: Narrowing, types: Seq<AtomicView>, n: nat) -> Seq<
    AtomicView,
>
    decreases n,
{
    if n == 0 || n > types.len() {
        Seq::empty()
    } else {
        parts(cb, how, types, (n - 1) as nat) + opt_atomic_seq(part(cb, how, types[n - 1]))
    }
}

/// What narrowing a type by an assertion comes to, given what is left of
/// its alternatives. Where nothing is left, the result is "nothing" and
/// the assertion is reported as impossible; where everything is left,
/// the assertion is reported as redundant.
pub open spec fn narrowing_outcome(
    existing: UnionView,
    kept: Seq<AtomicView>,
    a: AssertionView,
    key: Option<Text>,
    negated: bool,
    pos: Option<HPosView>,
) -> Reconciliation {
    if kept.len() == 0 {
        Reconciliation {
            result: wrapped(AtomicView::TNothing),
            status: ReconciliationStatus::Empty,
            issues: diagnostic(key, a, false, negated, pos),
        }
    } else if kept == existing.types {
        Reconciliation {
            result: union_of(kept),
            status: ReconciliationStatus::Redundant,
            issues: diagnostic(key, a, true, negated, pos),
        }
    } else {
        Reconciliation {
            result: union_of(kept),
            status: ReconciliationStatus::Okay,
            issues: Seq::empty(),
        }
    }
}

/// The type narrowed alternative by alternative.
pub open spec fn narrowed(
    cb: CodebaseInfo,
    how: Narrowing,
    existing: UnionView,
    a: AssertionView,
    key: Option<Text>,
    negated: bool,
    pos: Option<HPosView>,
) -> Reconciliation {
    narrowing_outcome(
        existing,
        parts(cb, how, existing.types, existing.types.len()),
        a,
        key,
        negated,
        pos,
    )
}

/// The type unchanged.
pub open spec fn unchanged(existing: UnionView) -> Reconciliation {
    Reconciliation {
        result: existing,
        status: ReconciliationStatus::Okay,
        issues: Seq::empty(),
    }
}

/// What a negated assertion makes of a type: the alternatives that
/// cannot meet it are taken out. A variable that is not set is `null`,
/// or has no type at all where it may be undefined.
pub open spec fn negated_reconciled(
    cb: CodebaseInfo,
    a: AssertionView,
    existing: UnionView,
    possibly_undefined: bool,
    key: Option<Text>,
    negated: bool,
    pos: Option<HPosView>,
) -> Reconciliation {
    match a {
        AssertionView::Falsy => narrowed(cb, Narrowing::Falsy, existing, a, key, negated, pos),
        AssertionView::IsNotType(t) => narrowed(
            cb,
            Narrowing::OtherThan(t),
            existing,
            a,
            key,
            negated,
            pos,
        ),
        AssertionView::IsNotEqual(t) => narrowed(
            cb,
            Narrowing::UnequalTo(t),
            existing,
            a,
            key,
            negated,
            pos,
        ),
        AssertionView::IsNotIsset => Reconciliation {
            result: wrapped(
                if possibly_undefined {
                    AtomicView::TNothing
                } else {
                    AtomicView::TNull
                },
            ),
            status: ReconciliationStatus::Okay,
            issues: Seq::empty(),
        },
        _ => unchanged(existing),
    }
}

/// The atomic type has no parts and is not "mixed".
pub open spec fn is_plain(t: AtomicView) -> bool {
    !(t is TNamedObject) && !(t is TTemplateParam) && !is_mixed_view(t) && !(t is TObject)
}

/// What an assertion makes of a type where the answer is at hand; none
/// where the general algorithm is needed. Truthiness and `isset` take
/// out the alternatives that cannot meet them; assertions about keys and
/// counts leave the type as it is; a plain type that is one of the
/// alternatives is the answer itself.
pub open spec fn simple_reconciled(
    cb: CodebaseInfo,
    a: AssertionView,
    existing: UnionView,
    key: Option<Text>,
    negated: bool,
    pos: Option<HPosView>,
) -> Option<Reconciliation> {
    match a {
        AssertionView::Truthy => Some(
            narrowed(cb, Narrowing::Truthy, existing, a, key, negated, pos),
        ),
        AssertionView::IsIsset => Some(narrowed(cb, Narrowing::Defined, existing, a, key, negated, pos)),
        AssertionView::IsEqualIsset
        | AssertionView::ArrayKeyExists
        | AssertionView::NonEmptyCountable(_)
        | AssertionView::HasExactCount(_) => Some(unchanged(existing)),
        AssertionView::IsType(t) => if is_plain(t) && existing.types.contains(t) {
            Some(
                if existing.types.len() == 1 {
                    Reconciliation {
                        result: wrapped(t),
                        status: ReconciliationStatus::Redundant,
                        issues: diagnostic(key, a, true, negated, pos),
                    }
                } else {
                    Reconciliation {
                        result: wrapped(t),
                        status: ReconciliationStatus::Okay,
                        issues: Seq::empty(),
                    }
                },
            )
        } else {
            None
        },
        _ => None,
    }
}

/// What the assertion of the type `new_type` makes of a type: their meet,
/// or "nothing" where they have no common values. "mixed" is asserted of
/// every type and is the answer itself. The assertion of a class of which
/// every value of the type already is an object is reported as redundant.
pub open spec fn refined(
    cb: CodebaseInfo,
    new_type: AtomicView,
    a: AssertionView,
    existing: UnionView,
    key: Option<Text>,
    negated: bool,
    pos: Option<HPosView>,
    status: ReconciliationStatus,
) -> Reconciliation {
    if is_mixed_view(new_type) {
        Reconciliation { result: wrapped(new_type), status, issues: Seq::empty() }
    } else {
        let issues = if new_type is TNamedObject && !is_interface(
            cb,
            new_type->TNamedObject_name,
        ) && !is_equality(a) && union_outcome(
            cb,
            existing,
            wrapped(new_type),
            false,
            false,
            false,
            fresh(),
            MAX_TYPE_DEPTH as nat,
        ).0 {
            diagnostic(key, a, true, negated, pos)
        } else {
            Seq::empty()
        };
        match union_meet(cb, existing, new_type, MAX_TYPE_DEPTH as nat) {
            Some(u) => Reconciliation { result: u, status, issues },
            None => Reconciliation {
                result: wrapped(AtomicView::TNothing),
                status: ReconciliationStatus::Empty,
                issues,
            },
        }
    }
}

/// The union in normal form: in each alternative the type arguments that
/// are placeholders give way to "mixed", and each alternative that this
/// leaves stands once.
pub open spec fn expanded(u: UnionView) -> UnionView {
    union_of(u.types.map_values(|a: AtomicView| without_placeholders(a)))
}

/// What an assertion makes of the type of a variable. Of a variable
/// without a type it gives the type that the assertion alone implies and
/// leaves the status as it was.
pub open spec fn reconciled(
    cb: CodebaseInfo,
    a: AssertionView,
    existing: Option<UnionView>,
    possibly_undefined: bool,
    key: Option<Text>,
    inside_loop: bool,
    pos: Option<HPosView>,
    negated: bool,
    status: ReconciliationStatus,
) -> Reconciliation {
    match existing {
        None => Reconciliation {
            result: missing_type(a, inside_loop),
            status,
            issues: Seq::empty(),
        },
        Some(e) => if is_negated_form(a) {
            negated_reconciled(cb, a, e, possibly_undefined, key, negated, pos)
        } else {
            match simple_reconciled(cb, a, e, key, negated, pos) {
                Some(r) => r,
                None => match asserted_type(a) {
                    Some(t) => {
                        let r = refined(cb, t, a, e, key, negated, pos, ReconciliationStatus::Okay);
                        Reconciliation { result: expanded(r.result), ..r }
                    },
                    None => Reconciliation {
                        result: wrapped(AtomicView::TMixedAny),
                        status: ReconciliationStatus::Okay,
                        issues: Seq::empty(),
                    },
                },
            }
        },
    }
}

/// A way of narrowing a union alternative by alternative.
pub enum NarrowBy<'a> {
    Truthy,
    Falsy,
    Defined,
    OtherThan(&'a TAtomic),
    UnequalTo(&'a TAtomic),
}

impl<'a> View for NarrowBy<'a> {
    type V = Narrowing;

    open spec fn view(&self) -> Narrowing {
        match *self {
            NarrowBy::Truthy => Narrowing::Truthy,
            NarrowBy::Falsy => Narrowing::Falsy,
            NarrowBy::Defined => Narrowing::Defined,
            NarrowBy::OtherThan(t) => Narrowing::OtherThan(t@),
            NarrowBy::UnequalTo(t) => Narrowing::UnequalTo(t@),
        }
    }
}

/// True when the alternative is never falsy.
pub fn is_always_truthy(a: &TAtomic) -> (r: bool)
    ensures
        r == always_truthy(a@),
{
    broadcast use group_type_views;

    match a {
        TAtomic::TTrue | TAtomic::TObject | TAtomic::TNamedObject { .. } => true,
        TAtomic::TLiteralInt { value } => *value != 0,
        TAtomic::TLiteralString { value } => !str_same(value.as_str(), "") && !str_same(
            value.as_str(),
            "0",
        ),
        _ => false,
    }
}

/// True when the alternative is never truthy.
fn is_always_falsy(a: &TAtomic) -> (r: bool)
    ensures
        r == always_falsy(a@),
{
    match a {
        TAtomic::TNull | TAtomic::TFalse | TAtomic::TNothing => true,
        TAtomic::TLiteralInt { value } => *value == 0,
        TAtomic::TLiteralString { value } => str_same(value.as_str(), "") || str_same(
            value.as_str(),
            "0",
        ),
        _ => false,
    }
}

/// What is left of one alternative under the narrowing.
fn part_of(codebase: &CodebaseInfo, how: &NarrowBy, a: &TAtomic) -> (r: Option<TAtomic>)
    requires
        codebase.wf(),
    ensures
        match r {
            Some(t) => part(*codebase, how@, a@) == Some(t@),
            None => part(*codebase, how@, a@) is None,
        },
{
    match how {
        NarrowBy::Truthy => {
            if is_always_falsy(a) {
                None
            } else if matches!(a, TAtomic::TBool) {
                Some(TAtomic::TTrue)
            } else {
                Some(a.clone())
            }
        },
        NarrowBy::Falsy => {
            if is_always_truthy(a) {
                None
            } else if matches!(a, TAtomic::TBool) {
                Some(TAtomic::TFalse)
            } else {
                Some(a.clone())
            }
        },
        NarrowBy::Defined => {
            if matches!(a, TAtomic::TNull) {
                None
            } else {
                Some(a.clone())
            }
        },
        NarrowBy::OtherThan(t) => {
            let mut result = TypeComparisonResult::new();
            if atomic_is_contained_by(codebase, a, t, false, &mut result, MAX_TYPE_DEPTH) {
                None
            } else {
                Some(a.clone())
            }
        },
        NarrowBy::UnequalTo(t) => {
            if atomic_eq(a, t) {
                None
            } else {
                Some(a.clone())
            }
        },
    }
}

/// What is left of the alternatives of the union under the narrowing.
fn narrow(codebase: &CodebaseInfo, how: &NarrowBy, existing: &TUnion) -> (r: Vec<TAtomic>)
    requires
        codebase.wf(),
    ensures
        atomic_views(r@) == parts(*codebase, how@, existing@.types, existing@.types.len()),
{
    let ghost types = existing@.types;
    proof {
        crate::types::lemma_union_view(*existing);
    }
    let mut kept: Vec<TAtomic> = Vec::new();
    let mut i: usize = 0;
    assert(atomic_views(kept@) =~= parts(*codebase, how@, types, 0));
    while i < existing.types.len()
        invariant
            i <= existing.types.len(),
            codebase.wf(),
            types == existing@.types,
            types == atomic_views(existing.types@),
            atomic_views(kept@) == parts(*codebase, how@, types, i as nat),
        decreases existing.types.len() - i,
    {
        let ghost before = atomic_views(kept@);
        assert(types[i as int] == existing.types@[i as int]@);
        match part_of(codebase, how, &existing.types[i]) {
            Some(t) => {
                kept.push(t);
                assert(atomic_views(kept@) =~= before.push(t@));
                assert(before.push(t@) =~= parts(*codebase, how@, types, (i + 1) as nat));
            },
            None => {
                assert(before =~= parts(*codebase, how@, types, (i + 1) as nat));
            },
        }
        i += 1;
    }
    kept
}

/// Narrows the type alternative by alternative and reports what the
/// narrowing shows of the assertion.
fn narrow_and_report(
    codebase: &CodebaseInfo,
    how: &NarrowBy,
    existing: &TUnion,
    assertion: &Assertion,
    key: &Option<String>,
    negated: bool,
    pos: Option<&HPos>,
    issues: &mut Vec<Issue>,
    failed_reconciliation: &mut ReconciliationStatus,
) -> (r: TUnion)
    requires
        codebase.wf(),
    ensures
        r@ == narrowed(
            *codebase,
            how@,
            existing@,
            assertion@,
            opt_text(*key),
            negated,
            opt_pos(pos),
        ).result,
        *final(failed_reconciliation) == narrowed(
            *codebase,
            how@,
            existing@,
            assertion@,
            opt_text(*key),
            negated,
            opt_pos(pos),
        ).status,
        issue_views(final(issues)@) == issue_views(old(issues)@) + narrowed(
            *codebase,
            how@,
            existing@,
            assertion@,
            opt_text(*key),
            negated,
            opt_pos(pos),
        ).issues,
{
    let kept = narrow(codebase, how, existing);
    proof {
        crate::types::lemma_union_view(*existing);
    }
    if kept.len() == 0 {
        *failed_reconciliation = ReconciliationStatus::Empty;
        report(issues, key, assertion, false, negated, pos);
        get_nothing()
    } else if atomics_eq(&kept, &existing.types) {
        *failed_reconciliation = ReconciliationStatus::Redundant;
        report(issues, key, assertion, true, negated, pos);
        TUnion::new(kept)
    } else {
        *failed_reconciliation = ReconciliationStatus::Okay;
        assert(issue_views(issues@) =~= issue_views(issues@) + Seq::<IssueView>::empty());
        TUnion::new(kept)
    }
}

/// True when the atomic type has no parts and is not "mixed".
fn is_plain_type(t: &TAtomic) -> (r: bool)
    ensures
        r == is_plain(t@),
{
    broadcast use group_type_views;

    match t {
        TAtomic::TNamedObject { .. }
        | TAtomic::TTemplateParam { .. }
        | TAtomic::TObject
        | TAtomic::TMixed
        | TAtomic::TMixedAny
        | TAtomic::TMixedFromLoopIsset => false,
        _ => true,
    }
}

/// Narrows a type by a negated assertion.
pub fn reconcile_negated(
    assertion: &Assertion,
    existing_var_type: &TUnion,
    possibly_undefined: bool,
    key: &Option<String>,
    codebase: &CodebaseInfo,
    issues: &mut Vec<Issue>,
    pos: Option<&HPos>,
    failed_reconciliation: &mut ReconciliationStatus,
    negated: bool,
) -> (r: TUnion)
    requires
        codebase.wf(),
    ensures
        r@ == negated_reconciled(
            *codebase,
            assertion@,
            existing_var_type@,
            possibly_undefined,
            opt_text(*key),
            negated,
            opt_pos(pos),
        ).result,
        *final(failed_reconciliation) == negated_reconciled(
            *codebase,
            assertion@,
            existing_var_type@,
            possibly_undefined,
            opt_text(*key),
            negated,
            opt_pos(pos),
        ).status,
        issue_views(final(issues)@) == issue_views(old(issues)@) + negated_reconciled(
            *codebase,
            assertion@,
            existing_var_type@,
            possibly_undefined,
            opt_text(*key),
            negated,
            opt_pos(pos),
        ).issues,
{
    match assertion {
        Assertion::Falsy => narrow_and_report(
            codebase,
            &NarrowBy::Falsy,
            existing_var_type,
            assertion,
            key,
            negated,
            pos,
            issues,
            failed_reconciliation,
        ),
        Assertion::IsNotType(t) => narrow_and_report(
            codebase,
            &NarrowBy::OtherThan(t),
            existing_var_type,
            assertion,
            key,
            negated,
            pos,
            issues,
            failed_reconciliation,
        ),
        Assertion::IsNotEqual(t) => narrow_and_report(
            codebase,
            &NarrowBy::UnequalTo(t),
            existing_var_type,
            assertion,
            key,
            negated,
            pos,
            issues,
            failed_reconciliation,
        ),
        Assertion::IsNotIsset => {
            *failed_reconciliation = ReconciliationStatus::Okay;
            assert(issue_views(issues@) =~= issue_views(issues@) + Seq::<IssueView>::empty());
            if possibly_undefined {
                get_nothing()
            } else {
                wrap_atomic(TAtomic::TNull)
            }
        },
        _ => {
            *failed_reconciliation = ReconciliationStatus::Okay;
            assert(issue_views(issues@) =~= issue_views(issues@) + Seq::<IssueView>::empty());
            existing_var_type.clone()
        },
    }
}

/// Narrows a type by an assertion for which the answer is at hand; none
/// where the general algorithm is needed, and then nothing is changed.
pub fn reconcile_simple(
    assertion: &Assertion,
    existing_var_type: &TUnion,
    key: &Option<String>,
    codebase: &CodebaseInfo,
    issues: &mut Vec<Issue>,
    pos: Option<&HPos>,
    failed_reconciliation: &mut ReconciliationStatus,
    negated: bool,
) -> (r: Option<TUnion>)
    requires
        codebase.wf(),
    ensures
        match r {
            Some(u) => {
                let expected = simple_reconciled(
                    *codebase,
                    assertion@,
                    existing_var_type@,
                    opt_text(*key),
                    negated,
                    opt_pos(pos),
                );
                &&& expected is Some
                &&& u@ == expected->0.result
                &&& *final(failed_reconciliation) == expected->0.status
                &&& issue_views(final(issues)@) == issue_views(old(issues)@) + expected->0.issues
            },
            None => simple_reconciled(
                *codebase,
                assertion@,
                existing_var_type@,
                opt_text(*key),
                negated,
                opt_pos(pos),
            ) is None && *final(failed_reconciliation) == *old(failed_reconciliation)
                && *final(issues) == *old(issues),
        },
{
    match assertion {
        Assertion::Truthy => Some(
            narrow_and_report(
                codebase,
                &NarrowBy::Truthy,
                existing_var_type,
                assertion,
                key,
                negated,
                pos,
                issues,
                failed_reconciliation,
            ),
        ),
        Assertion::IsIsset => Some(
            narrow_and_report(
                codebase,
                &NarrowBy::Defined,
                existing_var_type,
                assertion,
                key,
                negated,
                pos,
                issues,
                failed_reconciliation,
            ),
        ),
        Assertion::IsEqualIsset
        | Assertion::ArrayKeyExists
        | Assertion::NonEmptyCountable(_)
        | Assertion::HasExactCount(_) => {
            *failed_reconciliation = ReconciliationStatus::Okay;
            assert(issue_views(issues@) =~= issue_views(issues@) + Seq::<IssueView>::empty());
            Some(existing_var_type.clone())
        },
        Assertion::IsType(t) => {
            proof {
                crate::types::lemma_union_view(*existing_var_type);
            }
            if is_plain_type(t) && has_atomic(&existing_var_type.types, t) {
                if existing_var_type.types.len() == 1 {
                    *failed_reconciliation = ReconciliationStatus::Redundant;
                    report(issues, key, assertion, true, negated, pos);
                } else {
                    *failed_reconciliation = ReconciliationStatus::Okay;
                    assert(issue_views(issues@) =~= issue_views(issues@) + Seq::<
                        IssueView,
                    >::empty());
                }
                Some(wrap_atomic(t.clone()))
            } else {
                None
            }
        },
        _ => None,
    }
}

/// Narrows a type by the assertion of the atomic type `new_type`: their
/// meet, or "nothing" with the status `Empty` where they have no common
/// values.
pub fn refine_atomic_with_union(
    codebase: &CodebaseInfo,
    issues: &mut Vec<Issue>,
    new_type: &TAtomic,
    assertion: &Assertion,
    existing_var_type: &TUnion,
    key: &Option<String>,
    negated: bool,
    pos: Option<&HPos>,
    failed_reconciliation: &mut ReconciliationStatus,
) -> (r: TUnion)
    requires
        codebase.wf(),
    ensures
        r@ == refined(
            *codebase,
            new_type@,
            assertion@,
            existing_var_type@,
            opt_text(*key),
            negated,
            opt_pos(pos),
            *old(failed_reconciliation),
        ).result,
        *final(failed_reconciliation) == refined(
            *codebase,
            new_type@,
            assertion@,
            existing_var_type@,
            opt_text(*key),
            negated,
            opt_pos(pos),
            *old(failed_reconciliation),
        ).status,
        issue_views(final(issues)@) == issue_views(old(issues)@) + refined(
            *codebase,
            new_type@,
            assertion@,
            existing_var_type@,
            opt_text(*key),
            negated,
            opt_pos(pos),
            *old(failed_reconciliation),
        ).issues,
{
    if new_type.is_mixed() {
        assert(issue_views(issues@) =~= issue_views(issues@) + Seq::<IssueView>::empty());
        return wrap_atomic(new_type.clone());
    }
    let already = match object_name(new_type) {
        Some(name) => {
            if !codebase.interface_exists(name) && !assertion.has_equality() {
                let mut result = TypeComparisonResult::new();
                let wrapped_type = wrap_atomic(new_type.clone());
                union_is_contained_by(
                    codebase,
                    existing_var_type,
                    &wrapped_type,
                    false,
                    false,
                    false,
                    &mut result,
                    MAX_TYPE_DEPTH,
                )
            } else {
                false
            }
        },
        None => false,
    };
    if already {
        report(issues, key, assertion, true, negated, pos);
    } else {
        assert(issue_views(issues@) =~= issue_views(issues@) + Seq::<IssueView>::empty());
    }
    match intersect_union_with_atomic(codebase, existing_var_type, new_type, MAX_TYPE_DEPTH) {
        Some(intersection_type) => intersection_type,
        None => {
            *failed_reconciliation = ReconciliationStatus::Empty;
            get_nothing()
        },
    }
}

/// The union in normal form: placeholders among the type arguments of
/// its alternatives are resolved to "mixed", and each alternative stands
/// once.
pub fn expand_union(union: &TUnion) -> (r: TUnion)
    ensures
        r@ == expanded(union@),
{
    proof {
        crate::types::lemma_union_view(*union);
    }
    let mut resolved: Vec<TAtomic> = Vec::new();
    let mut i: usize = 0;
    while i < union.types.len()
        invariant
            i <= union.types.len(),
            resolved.len() == i,
            forall|j: int| 0 <= j < i ==> (#[trigger] resolved@[j])@ == without_placeholders(union.types@[j]@),
        decreases union.types.len() - i,
    {
        resolved.push(clone_atomic(&union.types[i]).remove_placeholders());
        i += 1;
    }
    assert(atomic_views(resolved@) =~= union@.types.map_values(|a: AtomicView| without_placeholders(a)));
    TUnion::new(resolved)
}

/// Narrows the type of a variable by one assertion. The status says
/// whether the assertion narrowed the type, said nothing new, or cannot
/// hold; what is to be reported is added to `issues`.
pub fn reconcile(
    assertion: &Assertion,
    existing_var_type: Option<&TUnion>,
    possibly_undefined: bool,
    key: &Option<String>,
    codebase: &CodebaseInfo,
    issues: &mut Vec<Issue>,
    inside_loop: bool,
    pos: Option<&HPos>,
    failed_reconciliation: &mut ReconciliationStatus,
    negated: bool,
) -> (r: TUnion)
    requires
        codebase.wf(),
    ensures
        ({
            let expected = reconciled(
                *codebase,
                assertion@,
                match existing_var_type {
                    Some(t) => Some(t@),
                    None => None,
                },
                possibly_undefined,
                opt_text(*key),
                inside_loop,
                opt_pos(pos),
                negated,
                *old(failed_reconciliation),
            );
            &&& r@ == expected.result
            &&& *final(failed_reconciliation) == expected.status
            &&& issue_views(final(issues)@) == issue_views(old(issues)@) + expected.issues
        }),
{
    let existing_var_type = match existing_var_type {
        Some(t) => t,
        None => {
            assert(issue_views(issues@) =~= issue_views(issues@) + Seq::<IssueView>::empty());
            return get_missing_type(assertion, inside_loop);
        },
    };
    if assertion.has_negation() {
        return reconcile_negated(
            assertion,
            existing_var_type,
            possibly_undefined,
            key,
            codebase,
            issues,
            pos,
            failed_reconciliation,
            negated,
        );
    }
    let simple_asserted_type = reconcile_simple(
        assertion,
        existing_var_type,
        key,
        codebase,
        issues,
        pos,
        failed_reconciliation,
        negated,
    );
    match simple_asserted_type {
        Some(t) => {
            return t;
        },
        None => {},
    }
    *failed_reconciliation = ReconciliationStatus::Okay;
    match assertion.get_type() {
        Some(assertion_type) => {
            let refined_type = refine_atomic_with_union(
                codebase,
                issues,
                assertion_type,
                assertion,
                existing_var_type,
                key,
                negated,
                pos,
                failed_reconciliation,
            );
            expand_union(&refined_type)
        },
        None => {
            assert(issue_views(issues@) =~= issue_views(issues@) + Seq::<IssueView>::empty());
            get_mixed_any()
        },
    }
}

} // verus!
