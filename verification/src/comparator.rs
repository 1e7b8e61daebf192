//! Containment of types: whether every value of one type is a value of
//! another, and what coercion a failed comparison would have taken.
//!
//! Types nest: a named object has type arguments, a template parameter has
//! a bound. Every comparison therefore takes a depth, the number of levels
//! that it may descend, and answers no once the depth is used up. This
//! bound is the library's own: it makes the comparison end on every input,
//! and it means that two types that differ only below that depth, or agree
//! only below it, are held not to be contained. A caller that wants the
//! usual comparison passes `MAX_TYPE_DEPTH`.
use crate::codebase::{
    class_info, extends, implements, interface_descends, is_class, is_classlike, is_interface,
    CodebaseInfo,
};
use crate::text::{str_same, Text};
use crate::types::{
    atomic_eq, atomic_views, clone_unions, get_mixed_any, group_type_views, has_static_object_view,
    has_template_view, is_arraykey_view, is_literal_of_view, is_mixed_union_view, is_mixed_view,
    is_nothing_view, is_placeholder_view, is_static_object_view, union_views, wrapped, AtomicView,
    TAtomic, TUnion, UnionView,
};
use vstd::prelude::*;
use vstd::string::*;

verus! {

/// How deep a comparison is meant to follow type arguments and bounds of
/// template parameters: 32 levels. A comparison that is started with this
/// depth answers no for types that are nested deeper, whatever they hold.
pub const MAX_TYPE_DEPTH: usize = 32;

/// What a comparison found besides its answer.
#[derive(Debug)]
pub struct TypeComparisonResult {
    /// The input could be coerced to the container.
    pub type_coerced: Option<bool>,
    /// The coercion starts from a "mixed" inside the input.
    pub type_coerced_from_nested_mixed: Option<bool>,
    /// That "mixed" is of unknown origin.
    pub type_coerced_from_nested_any: Option<bool>,
    /// The coercion starts from a template parameter bounded by "mixed".
    pub type_coerced_from_as_mixed: Option<bool>,
    /// The coercion ends in a literal.
    pub type_coerced_to_literal: Option<bool>,
    /// The input with type arguments filled in from the container.
    pub replacement_atomic_type: Option<TAtomic>,
    /// The input union with type arguments filled in from the container.
    pub replacement_union_type: Option<TUnion>,
}

/// The mathematical value of a [`TypeComparisonResult`].
pub struct ComparisonView {
    pub type_coerced: Option<bool>,
    pub type_coerced_from_nested_mixed: Option<bool>,
    pub type_coerced_from_nested_any: Option<bool>,
    pub type_coerced_from_as_mixed: Option<bool>,
    pub type_coerced_to_literal: Option<bool>,
    pub replacement_atomic_type: Option<AtomicView>,
    pub replacement_union_type: Option<UnionView>,
}

impl View for TypeComparisonResult {
    type V = ComparisonView;

    open spec fn view(&self) -> ComparisonView {
        ComparisonView {
            type_coerced: self.type_coerced,
            type_coerced_from_nested_mixed: self.type_coerced_from_nested_mixed,
            type_coerced_from_nested_any: self.type_coerced_from_nested_any,
            type_coerced_from_as_mixed: self.type_coerced_from_as_mixed,
            type_coerced_to_literal: self.type_coerced_to_literal,
            replacement_atomic_type: match self.replacement_atomic_type {
                Some(t) => Some(t@),
                None => None,
            },
            replacement_union_type: match self.replacement_union_type {
                Some(t) => Some(t@),
                None => None,
            },
        }
    }
}

/// The result of a comparison that has found nothing yet.
pub open spec fn fresh() -> ComparisonView {
    ComparisonView {
        type_coerced: None,
        type_coerced_from_nested_mixed: None,
        type_coerced_from_nested_any: None,
        type_coerced_from_as_mixed: None,
        type_coerced_to_literal: None,
        replacement_atomic_type: None,
        replacement_union_type: None,
    }
}

impl TypeComparisonResult {
    /// The result of a comparison that has found nothing yet.
    pub fn new() -> (r: Self)
        ensures
            r@ == fresh(),
    {
        Self {
            type_coerced: None,
            type_coerced_from_nested_mixed: None,
            type_coerced_from_nested_any: None,
            type_coerced_from_as_mixed: None,
            type_coerced_to_literal: None,
            replacement_atomic_type: None,
            replacement_union_type: None,
        }
    }
}

/// The flag, or false where it is not set.
pub open spec fn or_false(o: Option<bool>) -> bool {
    match o {
        Some(b) => b,
        None => false,
    }
}

/// The flag if it is set, else the other flag or false.
pub open spec fn kept_or(o: Option<bool>, other: Option<bool>) -> Option<bool> {
    Some(
        match o {
            Some(b) => b,
            None => or_false(other),
        },
    )
}

/// Containment among types without parts: a literal in its type, `int`
/// and `string` in `arraykey`, `true` and `false` in `bool`, the case of
/// an enum in the enum.
pub open spec fn scalar_contained(a: AtomicView, c: AtomicView) -> bool {
    match c {
        AtomicView::TArraykey => a is TInt || a is TLiteralInt || a is TString
            || a is TLiteralString,
        AtomicView::TInt => a is TLiteralInt,
        AtomicView::TString => a is TLiteralString,
        AtomicView::TBool => a is TTrue || a is TFalse,
        AtomicView::TEnum { name } => a matches AtomicView::TEnumLiteralCase { enum_name, .. }
            && enum_name == name,
        _ => false,
    }
}

/// An object of the classlike `input` is an object of the classlike
/// `container`: the names are the same, or the first extends or
/// implements the second; with `allow_interface_equality`, two interfaces
/// are taken to have common objects.
pub open spec fn names_compatible(
    cb: CodebaseInfo,
    input: Text,
    container: Text,
    allow_interface_equality: bool,
) -> bool {
    input == container || extends(cb, input, container) || implements(cb, input, container)
        || interface_descends(cb, input, container) || (allow_interface_equality && is_interface(
        cb,
        input,
    ) && is_interface(cb, container))
}

/// The type arguments of an atomic type.
pub open spec fn params_of(a: AtomicView) -> Option<Seq<UnionView>> {
    match a {
        AtomicView::TNamedObject { type_params, .. } => type_params,
        _ => None,
    }
}

/// The named object with its type arguments set.
pub open spec fn with_params(a: AtomicView, ps: Seq<UnionView>) -> AtomicView {
    match a {
        AtomicView::TNamedObject { name, is_this, extra_types, remapped_params, .. } => {
            AtomicView::TNamedObject {
                name,
                type_params: Some(ps),
                is_this,
                extra_types,
                remapped_params,
            }
        },
        _ => a,
    }
}

/// The type arguments that a class without explicit ones is taken to
/// have for `container`: those that the class is recorded to pass to it,
/// else "mixed" in each of the `count` places.
pub open spec fn synthesized_params(
    cb: CodebaseInfo,
    input: Text,
    container: Text,
    count: nat,
) -> Seq<UnionView> {
    match class_info(cb, input) {
        Some(info) => match crate::str_map::lookup(
            info.template_extended_params.entries(),
            container,
        ) {
            Some(ps) => union_views(ps@),
            None => Seq::new(count, |i: int| wrapped(AtomicView::TMixedAny)),
        },
        None => Seq::new(count, |i: int| wrapped(AtomicView::TMixedAny)),
    }
}

/// The replacement type with the type argument at `offset` set to `param`.
pub open spec fn replacement_set(
    r: ComparisonView,
    input: AtomicView,
    offset: usize,
    param: UnionView,
) -> ComparisonView {
    let base = match r.replacement_atomic_type {
        Some(t) => t,
        None => input,
    };
    let replaced = match params_of(base) {
        Some(ps) => if offset < ps.len() {
            with_params(base, ps.update(offset as int, param))
        } else {
            base
        },
        None => base,
    };
    ComparisonView { replacement_atomic_type: Some(replaced), ..r }
}

/// The replacement type with `param` put in as the type argument at
/// `offset`, the later arguments moving up.
pub open spec fn replacement_inserted(
    r: ComparisonView,
    input: AtomicView,
    offset: usize,
    param: UnionView,
) -> ComparisonView {
    let base = match r.replacement_atomic_type {
        Some(t) => t,
        None => input,
    };
    let replaced = match params_of(base) {
        Some(ps) => if offset <= ps.len() {
            with_params(base, ps.insert(offset as int, param))
        } else {
            base
        },
        None => base,
    };
    ComparisonView { replacement_atomic_type: Some(replaced), ..r }
}

/// The type parameter at `offset` of the classlike is covariant; of an
/// unknown classlike every parameter is taken to be.
pub open spec fn is_covariant(cb: CodebaseInfo, container: Text, offset: usize) -> bool {
    match class_info(cb, container) {
        Some(info) => info.template_covariants@.contains(offset),
        None => true,
    }
}

/// The alternative at `i` of the input takes part in the comparison.
pub open spec fn considered(u: UnionView, i: int, ignore_null: bool, ignore_false: bool) -> bool {
    0 <= i < u.types.len() && !(ignore_null && u.types[i] is TNull) && !(ignore_false
        && u.types[i] is TFalse)
}

/// The answer and the findings of comparing two atomic types, descending
/// at most `depth` levels: with no depth left the answer is no and the
/// findings stay as they are.
pub open spec fn atomic_outcome(
    cb: CodebaseInfo,
    a: AtomicView,
    c: AtomicView,
    allow_interface_equality: bool,
    r: ComparisonView,
    depth: nat,
) -> (bool, ComparisonView)
    decreases depth, 4nat, 0nat,
{
    if depth == 0 {
        (false, r)
    } else if a == c {
        (true, r)
    } else if is_mixed_view(c) || c is TPlaceholder {
        (true, r)
    } else if a is TNothing || a is TPlaceholder {
        (true, r)
    } else if is_mixed_view(a) {
        (
            false,
            ComparisonView {
                type_coerced: Some(true),
                type_coerced_from_nested_mixed: Some(true),
                type_coerced_from_nested_any: if a is TMixedAny {
                    Some(true)
                } else {
                    r.type_coerced_from_nested_any
                },
                ..r
            },
        )
    } else if scalar_contained(a, c) {
        (true, r)
    } else {
        match a {
            AtomicView::TNamedObject { name, .. } => match c {
                AtomicView::TNamedObject { name: container_name, type_params, .. } => {
                    if !names_compatible(cb, name, container_name, allow_interface_equality) {
                        (false, r)
                    } else if type_params is Some {
                        generic_outcome(cb, a, c, allow_interface_equality, r, depth)
                    } else {
                        (true, r)
                    }
                },
                AtomicView::TObject => (true, r),
                _ => (false, r),
            },
            AtomicView::TTemplateParam { as_type, .. } => {
                if as_type.types.len() > 0 && forall|i: int|
                    0 <= i < as_type.types.len() ==> atomic_outcome(
                        cb,
                        #[trigger] as_type.types[i],
                        c,
                        allow_interface_equality,
                        fresh(),
                        (depth - 1) as nat,
                    ).0 {
                    (true, r)
                } else if exists|i: int|
                    0 <= i < as_type.types.len() && is_mixed_view(#[trigger] as_type.types[i]) {
                    (
                        false,
                        ComparisonView {
                            type_coerced: Some(true),
                            type_coerced_from_as_mixed: Some(true),
                            ..r
                        },
                    )
                } else {
                    (false, r)
                }
            },
            _ => (false, r),
        }
    }
}

/// The answer and the findings of comparing two named objects of which
/// the container has type arguments. Where the input is no named object,
/// or the container is none with type arguments, the answer is no and the
/// findings stay as they are. The type arguments are paired by their
/// place.
pub open spec fn generic_outcome(
    cb: CodebaseInfo,
    a: AtomicView,
    c: AtomicView,
    allow_interface_equality: bool,
    r: ComparisonView,
    depth: nat,
) -> (bool, ComparisonView)
    decreases depth, 3nat, 0nat,
{
    match a {
        AtomicView::TNamedObject { name, type_params, .. } => match c {
            AtomicView::TNamedObject { name: container_name, type_params: Some(cps), .. } => {
                if !is_classlike(cb, name) || !is_classlike(cb, container_name) {
                    (false, r)
                } else {
                    match type_params {
                        None => if is_class(cb, name) {
                            let ips = synthesized_params(cb, name, container_name, cps.len());
                            params_outcome(
                                cb,
                                with_params(a, ips),
                                name,
                                ips,
                                container_name,
                                cps,
                                if ips.len() < cps.len() {
                                    ips.len()
                                } else {
                                    cps.len()
                                },
                                allow_interface_equality,
                                r,
                                depth,
                            )
                        } else {
                            (false, r)
                        },
                        Some(ips) => params_outcome(
                            cb,
                            a,
                            name,
                            ips,
                            container_name,
                            cps,
                            if ips.len() < cps.len() {
                                ips.len()
                            } else {
                                cps.len()
                            },
                            allow_interface_equality,
                            r,
                            depth,
                        ),
                    }
                }
            },
            _ => (false, r),
        },
        _ => (false, r),
    }
}

/// The answer and the findings after the first `n` pairs of type
/// arguments have been compared.
pub open spec fn params_outcome(
    cb: CodebaseInfo,
    a: AtomicView,
    input_name: Text,
    ips: Seq<UnionView>,
    container_name: Text,
    cps: Seq<UnionView>,
    n: nat,
    allow_interface_equality: bool,
    r: ComparisonView,
    depth: nat,
) -> (bool, ComparisonView)
    decreases depth, 2nat, n,
{
    if n == 0 || n > ips.len() || n > cps.len() {
        (true, r)
    } else {
        let before = params_outcome(
            cb,
            a,
            input_name,
            ips,
            container_name,
            cps,
            (n - 1) as nat,
            allow_interface_equality,
            r,
            depth,
        );
        param_outcome(
            cb,
            a,
            input_name,
            ips[n - 1],
            container_name,
            cps[n - 1],
            (n - 1) as usize,
            allow_interface_equality,
            before.0,
            before.1,
            depth,
        )
    }
}

/// The answer so far and the findings after one more pair of type
/// arguments has been compared. A missing input argument takes the
/// container's. An input argument that is not contained in the
/// container's ends containment, unless it is a template parameter
/// bounded by "mixed"; the findings of that comparison are taken over
/// where none were set. A literal of the container's argument is noted in
/// the replacement type. Where the parameter is not covariant the
/// container's argument must also be contained in the input's; where it
/// is not, containment ends unless the container's argument is "mixed"
/// or `arraykey`.
pub open spec fn param_outcome(
    cb: CodebaseInfo,
    a: AtomicView,
    input_name: Text,
    input_param: UnionView,
    container_name: Text,
    container_param: UnionView,
    offset: usize,
    allow_interface_equality: bool,
    all: bool,
    r: ComparisonView,
    depth: nat,
) -> (bool, ComparisonView)
    decreases depth, 1nat, 0nat,
{
    if is_nothing_view(input_param) || is_placeholder_view(input_param) {
        (all, replacement_set(r, a, offset, container_param))
    } else if depth == 0 {
        (false, r)
    } else {
        let forward = union_outcome(
            cb,
            input_param,
            container_param,
            false,
            false,
            allow_interface_equality,
            fresh(),
            (depth - 1) as nat,
        );
        if !forward.0 {
            if input_name == "Generator"@ && offset == 2 && or_false(
                forward.1.type_coerced_from_nested_mixed,
            ) {
                (all, r)
            } else {
                (
                    all && or_false(forward.1.type_coerced_from_as_mixed),
                    ComparisonView {
                        type_coerced: kept_or(r.type_coerced, forward.1.type_coerced),
                        type_coerced_from_nested_mixed: kept_or(
                            r.type_coerced_from_nested_mixed,
                            forward.1.type_coerced_from_nested_mixed,
                        ),
                        type_coerced_from_nested_any: kept_or(
                            r.type_coerced_from_nested_any,
                            forward.1.type_coerced_from_nested_any,
                        ),
                        type_coerced_from_as_mixed: kept_or(
                            r.type_coerced_from_as_mixed,
                            forward.1.type_coerced_from_as_mixed,
                        ),
                        type_coerced_to_literal: kept_or(
                            r.type_coerced_to_literal,
                            forward.1.type_coerced_to_literal,
                        ),
                        ..r
                    },
                )
            }
        } else if has_template_view(container_param) || has_template_view(input_param) {
            (all, r)
        } else if is_literal_of_view(input_param, container_param) {
            (all, replacement_inserted(r, a, offset, container_param))
        } else if is_covariant(cb, container_name, offset) || container_param.had_template {
            (all, r)
        } else {
            let backward = union_outcome(
                cb,
                container_param,
                input_param,
                false,
                false,
                allow_interface_equality,
                forward.1,
                (depth - 1) as nat,
            );
            if backward.0 && !or_false(backward.1.type_coerced) {
                (all, r)
            } else if has_static_object_view(container_param) && is_static_object_view(
                input_param,
            ) {
                (all, r)
            } else if is_mixed_union_view(container_param) || is_arraykey_view(container_param) {
                (
                    all,
                    ComparisonView {
                        type_coerced: Some(false),
                        type_coerced_from_nested_mixed: Some(true),
                        type_coerced_from_nested_any: if container_param.types[0] is TMixedAny {
                            Some(true)
                        } else {
                            r.type_coerced_from_nested_any
                        },
                        ..r
                    },
                )
            } else {
                (false, ComparisonView { type_coerced: Some(false), ..r })
            }
        }
    }
}

/// The alternative at `i` of the input is contained in some alternative
/// of the container.
pub open spec fn matched(
    cb: CodebaseInfo,
    u: UnionView,
    v: UnionView,
    i: int,
    allow_interface_equality: bool,
    depth: nat,
) -> bool
    decreases depth, 5nat, 0nat,
{
    exists|j: int|
        0 <= j < v.types.len() && atomic_outcome(
            cb,
            u.types[i],
            #[trigger] v.types[j],
            allow_interface_equality,
            fresh(),
            depth,
        ).0
}

/// One of the findings of a comparison.
pub enum Finding {
    Coerced,
    FromNestedMixed,
    FromNestedAny,
    FromAsMixed,
    ToLiteral,
}

/// The finding as the result holds it.
pub open spec fn finding(f: ComparisonView, which: Finding) -> Option<bool> {
    match which {
        Finding::Coerced => f.type_coerced,
        Finding::FromNestedMixed => f.type_coerced_from_nested_mixed,
        Finding::FromNestedAny => f.type_coerced_from_nested_any,
        Finding::FromAsMixed => f.type_coerced_from_as_mixed,
        Finding::ToLiteral => f.type_coerced_to_literal,
    }
}

/// The finding is set where the comparison with every alternative of the
/// container notes it; else it is as it was.
pub open spec fn noted_or(
    cb: CodebaseInfo,
    a: AtomicView,
    v: UnionView,
    allow_interface_equality: bool,
    depth: nat,
    r: ComparisonView,
    which: Finding,
) -> Option<bool>
    decreases depth, 5nat, 1nat,
{
    if all_note(cb, a, v, allow_interface_equality, depth, which) {
        Some(true)
    } else {
        finding(r, which)
    }
}

/// The answer and the findings of comparing two unions: each alternative
/// of the input that is considered must be contained in some alternative
/// of the container. For the first that is not, a coercion is noted where
/// the comparison with every alternative of the container notes it.
pub open spec fn union_outcome(
    cb: CodebaseInfo,
    u: UnionView,
    v: UnionView,
    ignore_null: bool,
    ignore_false: bool,
    allow_interface_equality: bool,
    r: ComparisonView,
    depth: nat,
) -> (bool, ComparisonView)
    decreases depth, 6nat, 0nat,
{
    if forall|i: int| #[trigger]
        considered(u, i, ignore_null, ignore_false) ==> matched(
            cb,
            u,
            v,
            i,
            allow_interface_equality,
            depth,
        ) {
        (true, r)
    } else {
        let i = first_unmatched(cb, u, v, ignore_null, ignore_false, allow_interface_equality, depth);
        let a = u.types[i];
        (
            false,
            ComparisonView {
                type_coerced: noted_or(
                    cb,
                    a,
                    v,
                    allow_interface_equality,
                    depth,
                    r,
                    Finding::Coerced,
                ),
                type_coerced_from_nested_mixed: noted_or(
                    cb,
                    a,
                    v,
                    allow_interface_equality,
                    depth,
                    r,
                    Finding::FromNestedMixed,
                ),
                type_coerced_from_nested_any: noted_or(
                    cb,
                    a,
                    v,
                    allow_interface_equality,
                    depth,
                    r,
                    Finding::FromNestedAny,
                ),
                type_coerced_from_as_mixed: noted_or(
                    cb,
                    a,
                    v,
                    allow_interface_equality,
                    depth,
                    r,
                    Finding::FromAsMixed,
                ),
                type_coerced_to_literal: noted_or(
                    cb,
                    a,
                    v,
                    allow_interface_equality,
                    depth,
                    r,
                    Finding::ToLiteral,
                ),
                ..r
            },
        )
    }
}

/// The position of the first alternative of the input that is considered
/// and not matched.
pub open spec fn first_unmatched(
    cb: CodebaseInfo,
    u: UnionView,
    v: UnionView,
    ignore_null: bool,
    ignore_false: bool,
    allow_interface_equality: bool,
    depth: nat,
) -> int
    decreases depth, 5nat, 1nat,
{
    choose|i: int|
        #![trigger considered(u, i, ignore_null, ignore_false)]
        considered(u, i, ignore_null, ignore_false) && !matched(
            cb,
            u,
            v,
            i,
            allow_interface_equality,
            depth,
        ) && forall|k: int|
            0 <= k < i && #[trigger] considered(u, k, ignore_null, ignore_false) ==> matched(
                cb,
                u,
                v,
                k,
                allow_interface_equality,
                depth,
            )
}

/// The container has an alternative, and the comparison of `a` with each
/// of them notes the finding.
pub open spec fn all_note(
    cb: CodebaseInfo,
    a: AtomicView,
    v: UnionView,
    allow_interface_equality: bool,
    depth: nat,
    which: Finding,
) -> bool
    decreases depth, 5nat, 0nat,
{
    v.types.len() > 0 && forall|j: int|
        0 <= j < v.types.len() ==> or_false(
            finding(
                atomic_outcome(
                    cb,
                    a,
                    #[trigger] v.types[j],
                    allow_interface_equality,
                    fresh(),
                    depth,
                ).1,
                which,
            ),
        )
}

/// True when `input` is contained in `container`, both without parts.
fn scalar_is_contained(input: &TAtomic, container: &TAtomic) -> (r: bool)
    ensures
        r == scalar_contained(input@, container@),
{
    match container {
        TAtomic::TArraykey => matches!(
            input,
            TAtomic::TInt
                | TAtomic::TLiteralInt { .. }
                | TAtomic::TString
                | TAtomic::TLiteralString { .. }
        ),
        TAtomic::TInt => matches!(input, TAtomic::TLiteralInt { .. }),
        TAtomic::TString => matches!(input, TAtomic::TLiteralString { .. }),
        TAtomic::TBool => matches!(input, TAtomic::TTrue | TAtomic::TFalse),
        TAtomic::TEnum { name } => match input {
            TAtomic::TEnumLiteralCase { enum_name, .. } => str_same(
                enum_name.as_str(),
                name.as_str(),
            ),
            _ => false,
        },
        _ => false,
    }
}

/// True when an object of the classlike `input` is an object of the
/// classlike `container`.
fn names_are_compatible(
    codebase: &CodebaseInfo,
    input: &String,
    container: &String,
    allow_interface_equality: bool,
) -> (r: bool)
    requires
        codebase.wf(),
    ensures
        r == names_compatible(*codebase, input@, container@, allow_interface_equality),
{
    str_same(input.as_str(), container.as_str()) || codebase.class_extends(input, container)
        || codebase.class_implements(input, container) || codebase.interface_extends(
        input,
        container,
    ) || (allow_interface_equality && codebase.interface_exists(input)
        && codebase.interface_exists(container))
}

/// Decides whether every value of the atomic type `input` is a value of
/// the atomic type `container`, and notes in `result` what coercion a
/// failed comparison would have taken. Type arguments and bounds are
/// followed `depth` levels deep; below that the answer is no.
pub fn atomic_is_contained_by(
    codebase: &CodebaseInfo,
    input: &TAtomic,
    container: &TAtomic,
    allow_interface_equality: bool,
    result: &mut TypeComparisonResult,
    depth: usize,
) -> (r: bool)
    requires
        codebase.wf(),
    ensures
        (r, final(result)@) == atomic_outcome(
            *codebase,
            input@,
            container@,
            allow_interface_equality,
            old(result)@,
            depth as nat,
        ),
    decreases depth, 4nat, 0nat,
{
    broadcast use group_type_views;

    if depth == 0 {
        return false;
    }
    if atomic_eq(input, container) {
        return true;
    }
    if container.is_mixed() || matches!(container, TAtomic::TPlaceholder) {
        return true;
    }
    if matches!(input, TAtomic::TNothing | TAtomic::TPlaceholder) {
        return true;
    }
    if input.is_mixed() {
        result.type_coerced = Some(true);
        result.type_coerced_from_nested_mixed = Some(true);
        if matches!(input, TAtomic::TMixedAny) {
            result.type_coerced_from_nested_any = Some(true);
        }
        return false;
    }
    if scalar_is_contained(input, container) {
        return true;
    }
    match input {
        TAtomic::TNamedObject { name, .. } => match container {
            TAtomic::TNamedObject { name: container_name, type_params, .. } => {
                assert(input@ is TNamedObject && container@ is TNamedObject);
                if !names_are_compatible(codebase, name, container_name, allow_interface_equality) {
                    return false;
                } else if type_params.is_some() {
                    assert(params_of(container@) is Some);
                    return is_contained_by(
                        codebase,
                        input,
                        container,
                        allow_interface_equality,
                        result,
                        depth,
                    );
                } else {
                    assert(params_of(container@) is None);
                    return true;
                }
            },
            TAtomic::TObject => {
                return true;
            },
            _ => {
                return false;
            },
        },
        TAtomic::TTemplateParam { as_type, .. } => {
            let ghost bound = as_type@;
            let ghost below = (depth as nat - 1) as nat;
            let mut all = as_type.types.len() > 0;
            let mut any_mixed = false;
            let mut i: usize = 0;
            while i < as_type.types.len()
                invariant
                    i <= as_type.types.len(),
                    codebase.wf(),
                    depth > 0,
                    below == (depth as nat - 1) as nat,
                    bound == as_type@,
                    bound.types == atomic_views(as_type.types@),
                    all == (as_type.types.len() > 0 && forall|j: int|
                        0 <= j < i ==> atomic_outcome(
                            *codebase,
                            #[trigger] bound.types[j],
                            container@,
                            allow_interface_equality,
                            fresh(),
                            below,
                        ).0),
                    any_mixed == exists|j: int|
                        0 <= j < i && is_mixed_view(#[trigger] bound.types[j]),
                decreases as_type.types.len() - i,
            {
                let mut inner = TypeComparisonResult::new();
                let contained = atomic_is_contained_by(
                    codebase,
                    &as_type.types[i],
                    container,
                    allow_interface_equality,
                    &mut inner,
                    depth - 1,
                );
                assert(bound.types[i as int] == as_type.types@[i as int]@);
                if !contained {
                    all = false;
                }
                if as_type.types[i].is_mixed() {
                    any_mixed = true;
                }
                i += 1;
            }
            assert(input@ is TTemplateParam);
            assert(input@->TTemplateParam_as_type == bound);
            if all {
                assert(bound.types.len() > 0);
                return true;
            } else if any_mixed {
                result.type_coerced = Some(true);
                result.type_coerced_from_as_mixed = Some(true);
                return false;
            } else {
                return false;
            }
        },
        _ => {
            return false;
        },
    }
}

/// The union of "mixed", `count` times.
fn mixed_params(count: usize) -> (r: Vec<TUnion>)
    ensures
        union_views(r@) == Seq::new(count as nat, |i: int| wrapped(AtomicView::TMixedAny)),
{
    let mut r: Vec<TUnion> = Vec::new();
    let mut i: usize = 0;
    while i < count
        invariant
            i <= count,
            r.len() == i,
            forall|j: int| 0 <= j < i ==> (#[trigger] r@[j])@ == wrapped(AtomicView::TMixedAny),
        decreases count - i,
    {
        r.push(get_mixed_any());
        i += 1;
    }
    assert(union_views(r@) =~= Seq::new(count as nat, |i: int| wrapped(AtomicView::TMixedAny)));
    r
}

/// Compares the type arguments of a named object with those of the
/// container, pair by pair.
fn compare_all_params(
    codebase: &CodebaseInfo,
    input_type_part: &TAtomic,
    input_name: &String,
    input_type_params: &Vec<TUnion>,
    container_name: &String,
    container_type_params: &Vec<TUnion>,
    allow_interface_equality: bool,
    atomic_comparison_result: &mut TypeComparisonResult,
    depth: usize,
) -> (r: bool)
    requires
        codebase.wf(),
    ensures
        (r, final(atomic_comparison_result)@) == params_outcome(
            *codebase,
            input_type_part@,
            input_name@,
            union_views(input_type_params@),
            container_name@,
            union_views(container_type_params@),
            if input_type_params@.len() < container_type_params@.len() {
                input_type_params@.len()
            } else {
                container_type_params@.len()
            },
            allow_interface_equality,
            old(atomic_comparison_result)@,
            depth as nat,
        ),
    decreases depth, 2nat, input_type_params@.len() + 1,
{
    let ghost ips = union_views(input_type_params@);
    let ghost cps = union_views(container_type_params@);
    let ghost r0 = atomic_comparison_result@;
    let mut all_types_contain = true;
    let mut i: usize = 0;
    while i < input_type_params.len() && i < container_type_params.len()
        invariant
            i <= input_type_params.len(),
            i <= container_type_params.len(),
            codebase.wf(),
            ips == union_views(input_type_params@),
            cps == union_views(container_type_params@),
            (all_types_contain, atomic_comparison_result@) == params_outcome(
                *codebase,
                input_type_part@,
                input_name@,
                ips,
                container_name@,
                cps,
                i as nat,
                allow_interface_equality,
                r0,
                depth as nat,
            ),
        decreases input_type_params.len() - i,
    {
        assert(ips[i as int] == input_type_params@[i as int]@);
        assert(cps[i as int] == container_type_params@[i as int]@);
        compare_generic_params(
            codebase,
            input_type_part,
            input_name,
            &input_type_params[i],
            container_name,
            &container_type_params[i],
            i,
            allow_interface_equality,
            &mut all_types_contain,
            atomic_comparison_result,
            depth,
        );
        i += 1;
    }
    all_types_contain
}

/// The name and the type arguments of a named object.
fn named_parts(a: &TAtomic) -> (r: Option<(&String, &Option<Vec<TUnion>>)>)
    ensures
        match r {
            Some((name, type_params)) => a@ is TNamedObject && a@->TNamedObject_name == name@
                && params_of(a@) == crate::types::opt_union_views(*type_params),
            None => !(a@ is TNamedObject),
        },
{
    broadcast use group_type_views;

    match a {
        TAtomic::TNamedObject { name, type_params, .. } => Some((name, type_params)),
        _ => None,
    }
}

/// The named object with its type arguments set.
fn with_type_params(a: &TAtomic, type_params: Vec<TUnion>) -> (r: TAtomic)
    ensures
        r@ == with_params(a@, union_views(type_params@)),
{
    broadcast use group_type_views;

    match a {
        TAtomic::TNamedObject { name, is_this, extra_types, remapped_params, .. } => {
            TAtomic::TNamedObject {
                name: name.clone(),
                type_params: Some(type_params),
                is_this: *is_this,
                extra_types: match extra_types {
                    Some(es) => Some(crate::types::clone_atomics(es)),
                    None => None,
                },
                remapped_params: *remapped_params,
            }
        },
        _ => a.clone(),
    }
}

/// The type arguments that a class without explicit ones is taken to have
/// for `container_name`.
fn synthesize_params(
    codebase: &CodebaseInfo,
    input_name: &String,
    container_name: &String,
    count: usize,
) -> (r: Vec<TUnion>)
    requires
        codebase.wf(),
    ensures
        union_views(r@) == synthesized_params(
            *codebase,
            input_name@,
            container_name@,
            count as nat,
        ),
{
    let recorded = match codebase.classlike(input_name.as_str()) {
        Some(info) => match info.template_extended_params.get(container_name.as_str()) {
            Some(extended_params) => Some(clone_unions(extended_params)),
            None => None,
        },
        None => None,
    };
    match recorded {
        Some(ps) => ps,
        None => mixed_params(count),
    }
}

/// Decides whether the named object `input_type_part` is contained in
/// the named object `container_type_part`, which has type arguments. The
/// answer is no where the input is no named object, where the container
/// is none with type arguments, and where one of the two classlikes is
/// not known. An input without type arguments is given those that its
/// class is recorded to pass to the container, or "mixed" in every place.
/// The arguments are then compared pair by pair, each `depth` levels
/// deep.
///
/// Type arguments that the input itself gives are compared with the
/// container's place by place, as they stand. They are not first carried
/// along the chain of inheritance from the input's class to the
/// container: that mapping is left out. For an input of another class
/// than the container, whose class passes its arguments on in other
/// places or passes types of its own, give the input without type
/// arguments, so that the recorded ones are compared.
pub fn is_contained_by(
    codebase: &CodebaseInfo,
    input_type_part: &TAtomic,
    container_type_part: &TAtomic,
    allow_interface_equality: bool,
    atomic_comparison_result: &mut TypeComparisonResult,
    depth: usize,
) -> (r: bool)
    requires
        codebase.wf(),
    ensures
        (r, final(atomic_comparison_result)@) == generic_outcome(
            *codebase,
            input_type_part@,
            container_type_part@,
            allow_interface_equality,
            old(atomic_comparison_result)@,
            depth as nat,
        ),
    decreases depth, 3nat, 0nat,
{
    let (input_name, input_type_params) = match named_parts(input_type_part) {
        Some(parts) => parts,
        None => {
            return false;
        },
    };
    let (container_name, container_type_params) = match named_parts(container_type_part) {
        Some((name, Some(type_params))) => (name, type_params),
        _ => {
            return false;
        },
    };
    if !codebase.class_or_interface_or_enum_or_trait_exists(input_name) {
        return false;
    }
    if !codebase.class_or_interface_or_enum_or_trait_exists(container_name) {
        return false;
    }
    match input_type_params {
        None => {
            if !codebase.class_exists(input_name) {
                return false;
            }
            let synthesized = synthesize_params(
                codebase,
                input_name,
                container_name,
                container_type_params.len(),
            );
            let for_comparison = clone_unions(&synthesized);
            let with_arguments = with_type_params(input_type_part, synthesized);
            compare_all_params(
                codebase,
                &with_arguments,
                input_name,
                &for_comparison,
                container_name,
                container_type_params,
                allow_interface_equality,
                atomic_comparison_result,
                depth,
            )
        },
        Some(input_type_params) => compare_all_params(
            codebase,
            input_type_part,
            input_name,
            input_type_params,
            container_name,
            container_type_params,
            allow_interface_equality,
            atomic_comparison_result,
            depth,
        ),
    }
}

/// The flag if it is set, else the other flag or false.
fn keep_or(own: Option<bool>, other: Option<bool>) -> (r: Option<bool>)
    ensures
        r == kept_or(own, other),
{
    Some(
        match own {
            Some(b) => b,
            None => match other {
                Some(b) => b,
                None => false,
            },
        },
    )
}

/// Notes in the replacement type that the container's type argument
/// stands at `offset`: in place of the argument there, or, with
/// `insert`, before it.
fn note_replacement(
    result: &mut TypeComparisonResult,
    input_type_part: &TAtomic,
    offset: usize,
    container_param: &TUnion,
    insert: bool,
)
    ensures
        final(result)@ == if insert {
            replacement_inserted(old(result)@, input_type_part@, offset, container_param@)
        } else {
            replacement_set(old(result)@, input_type_part@, offset, container_param@)
        },
{
    broadcast use group_type_views;

    let mut taken: Option<TAtomic> = None;
    std::mem::swap(&mut taken, &mut result.replacement_atomic_type);
    let base = match taken {
        Some(t) => t,
        None => input_type_part.clone(),
    };
    let replaced = match base {
        TAtomic::TNamedObject {
            name,
            type_params: Some(type_params),
            is_this,
            extra_types,
            remapped_params,
        } => {
            let mut type_params = type_params;
            let ghost before = union_views(type_params@);
            if insert {
                if offset <= type_params.len() {
                    type_params.insert(offset, container_param.clone());
                    assert(union_views(type_params@) =~= before.insert(
                        offset as int,
                        container_param@,
                    ));
                }
            } else {
                if offset < type_params.len() {
                    type_params.set(offset, container_param.clone());
                    assert(union_views(type_params@) =~= before.update(
                        offset as int,
                        container_param@,
                    ));
                }
            }
            TAtomic::TNamedObject {
                name,
                type_params: Some(type_params),
                is_this,
                extra_types,
                remapped_params,
            }
        },
        other => other,
    };
    result.replacement_atomic_type = Some(replaced);
}

/// True when `offset` is among the covariant positions.
fn has_offset(offsets: &Vec<usize>, offset: usize) -> (r: bool)
    ensures
        r == offsets@.contains(offset),
{
    let mut i: usize = 0;
    while i < offsets.len()
        invariant
            i <= offsets.len(),
            forall|j: int| 0 <= j < i ==> offsets@[j] != offset,
        decreases offsets.len() - i,
    {
        if offsets[i] == offset {
            return true;
        }
        i += 1;
    }
    false
}

/// Compares one type argument of the input with the container's at the
/// same place, and brings `all_types_contain` and the findings up to
/// date.
pub fn compare_generic_params(
    codebase: &CodebaseInfo,
    input_type_part: &TAtomic,
    input_name: &String,
    input_param: &TUnion,
    container_name: &String,
    container_param: &TUnion,
    param_offset: usize,
    allow_interface_equality: bool,
    all_types_contain: &mut bool,
    atomic_comparison_result: &mut TypeComparisonResult,
    depth: usize,
)
    requires
        codebase.wf(),
    ensures
        (*final(all_types_contain), final(atomic_comparison_result)@) == param_outcome(
            *codebase,
            input_type_part@,
            input_name@,
            input_param@,
            container_name@,
            container_param@,
            param_offset,
            allow_interface_equality,
            *old(all_types_contain),
            old(atomic_comparison_result)@,
            depth as nat,
        ),
    decreases depth, 1nat, 0nat,
{
    if input_param.is_nothing() || input_param.is_placeholder() {
        note_replacement(
            atomic_comparison_result,
            input_type_part,
            param_offset,
            container_param,
            false,
        );
        return ;
    }
    if depth == 0 {
        *all_types_contain = false;
        return ;
    }
    let mut param_comparison_result = TypeComparisonResult::new();
    if !union_is_contained_by(
        codebase,
        input_param,
        container_param,
        false,
        false,
        allow_interface_equality,
        &mut param_comparison_result,
        depth - 1,
    ) {
        let from_nested_mixed = match param_comparison_result.type_coerced_from_nested_mixed {
            Some(b) => b,
            None => false,
        };
        if str_same(input_name.as_str(), "Generator") && param_offset == 2 && from_nested_mixed {
            return ;
        }
        atomic_comparison_result.type_coerced = keep_or(
            atomic_comparison_result.type_coerced,
            param_comparison_result.type_coerced,
        );
        atomic_comparison_result.type_coerced_from_nested_mixed = keep_or(
            atomic_comparison_result.type_coerced_from_nested_mixed,
            param_comparison_result.type_coerced_from_nested_mixed,
        );
        atomic_comparison_result.type_coerced_from_nested_any = keep_or(
            atomic_comparison_result.type_coerced_from_nested_any,
            param_comparison_result.type_coerced_from_nested_any,
        );
        atomic_comparison_result.type_coerced_from_as_mixed = keep_or(
            atomic_comparison_result.type_coerced_from_as_mixed,
            param_comparison_result.type_coerced_from_as_mixed,
        );
        atomic_comparison_result.type_coerced_to_literal = keep_or(
            atomic_comparison_result.type_coerced_to_literal,
            param_comparison_result.type_coerced_to_literal,
        );
        let from_as_mixed = match param_comparison_result.type_coerced_from_as_mixed {
            Some(b) => b,
            None => false,
        };
        if !from_as_mixed {
            *all_types_contain = false;
        }
    } else if !container_param.has_template() && !input_param.has_template() {
        if input_param.is_literal_of(container_param) {
            note_replacement(
                atomic_comparison_result,
                input_type_part,
                param_offset,
                container_param,
                true,
            );
        } else {
            let container_type_params_covariant = match codebase.classlike(
                container_name.as_str(),
            ) {
                Some(container_classlike_storage) => has_offset(
                    &container_classlike_storage.template_covariants,
                    param_offset,
                ),
                None => true,
            };
            if !container_type_params_covariant && !container_param.had_template {
                let contained = union_is_contained_by(
                    codebase,
                    container_param,
                    input_param,
                    false,
                    false,
                    allow_interface_equality,
                    &mut param_comparison_result,
                    depth - 1,
                );
                let coerced = match param_comparison_result.type_coerced {
                    Some(b) => b,
                    None => false,
                };
                if !contained || coerced {
                    if !container_param.has_static_object() || !input_param.is_static_object() {
                        let mut mixed_from_any = false;
                        let is_mixed = container_param.is_mixed_with_any(&mut mixed_from_any);
                        if is_mixed || container_param.is_arraykey() {
                            atomic_comparison_result.type_coerced_from_nested_mixed = Some(true);
                            if mixed_from_any {
                                atomic_comparison_result.type_coerced_from_nested_any = Some(
                                    true,
                                );
                            }
                        } else {
                            *all_types_contain = false;
                        }
                        atomic_comparison_result.type_coerced = Some(false);
                    }
                }
            }
        }
    }
}

/// The findings as flags: each is set where the comparison with every
/// alternative of the container has noted it.
struct Noted {
    coerced: bool,
    from_nested_mixed: bool,
    from_nested_any: bool,
    from_as_mixed: bool,
    to_literal: bool,
}

/// True when the flag is set and true.
fn is_set(o: Option<bool>) -> (r: bool)
    ensures
        r == or_false(o),
{
    match o {
        Some(b) => b,
        None => false,
    }
}

/// The comparison of `a` with each of the first `j` alternatives of the
/// container notes the finding.
spec fn noted_upto(
    cb: CodebaseInfo,
    a: AtomicView,
    v: UnionView,
    allow_interface_equality: bool,
    depth: nat,
    which: Finding,
    j: int,
) -> bool {
    forall|k: int|
        0 <= k < j ==> or_false(
            finding(
                atomic_outcome(
                    cb,
                    a,
                    #[trigger] v.types[k],
                    allow_interface_equality,
                    fresh(),
                    depth,
                ).1,
                which,
            ),
        )
}

/// Looks for an alternative of the container that contains `a`. Where
/// there is none, the flags say which findings every comparison noted.
fn find_container(
    codebase: &CodebaseInfo,
    a: &TAtomic,
    container: &TUnion,
    allow_interface_equality: bool,
    depth: usize,
) -> (r: (bool, Noted))
    requires
        codebase.wf(),
    ensures
        r.0 == exists|j: int|
            0 <= j < container@.types.len() && atomic_outcome(
                *codebase,
                a@,
                #[trigger] container@.types[j],
                allow_interface_equality,
                fresh(),
                depth as nat,
            ).0,
        !r.0 ==> {
            let n = container@.types.len() as int;
            &&& r.1.coerced == noted_upto(
                *codebase,
                a@,
                container@,
                allow_interface_equality,
                depth as nat,
                Finding::Coerced,
                n,
            )
            &&& r.1.from_nested_mixed == noted_upto(
                *codebase,
                a@,
                container@,
                allow_interface_equality,
                depth as nat,
                Finding::FromNestedMixed,
                n,
            )
            &&& r.1.from_nested_any == noted_upto(
                *codebase,
                a@,
                container@,
                allow_interface_equality,
                depth as nat,
                Finding::FromNestedAny,
                n,
            )
            &&& r.1.from_as_mixed == noted_upto(
                *codebase,
                a@,
                container@,
                allow_interface_equality,
                depth as nat,
                Finding::FromAsMixed,
                n,
            )
            &&& r.1.to_literal == noted_upto(
                *codebase,
                a@,
                container@,
                allow_interface_equality,
                depth as nat,
                Finding::ToLiteral,
                n,
            )
        },
    decreases depth, 5nat, 0nat,
{
    broadcast use group_type_views;

    let ghost v = container@;
    let ghost cb = *codebase;
    let ghost d = depth as nat;
    let mut noted = Noted {
        coerced: true,
        from_nested_mixed: true,
        from_nested_any: true,
        from_as_mixed: true,
        to_literal: true,
    };
    let mut j: usize = 0;
    while j < container.types.len()
        invariant
            j <= container.types.len(),
            codebase.wf(),
            cb == *codebase,
            d == depth as nat,
            v == container@,
            v.types == atomic_views(container.types@),
            forall|k: int|
                0 <= k < j ==> !atomic_outcome(
                    cb,
                    a@,
                    #[trigger] v.types[k],
                    allow_interface_equality,
                    fresh(),
                    d,
                ).0,
            noted.coerced == noted_upto(
                cb,
                a@,
                v,
                allow_interface_equality,
                d,
                Finding::Coerced,
                j as int,
            ),
            noted.from_nested_mixed == noted_upto(
                cb,
                a@,
                v,
                allow_interface_equality,
                d,
                Finding::FromNestedMixed,
                j as int,
            ),
            noted.from_nested_any == noted_upto(
                cb,
                a@,
                v,
                allow_interface_equality,
                d,
                Finding::FromNestedAny,
                j as int,
            ),
            noted.from_as_mixed == noted_upto(
                cb,
                a@,
                v,
                allow_interface_equality,
                d,
                Finding::FromAsMixed,
                j as int,
            ),
            noted.to_literal == noted_upto(
                cb,
                a@,
                v,
                allow_interface_equality,
                d,
                Finding::ToLiteral,
                j as int,
            ),
        decreases container.types.len() - j,
    {
        let mut inner = TypeComparisonResult::new();
        let contained = atomic_is_contained_by(
            codebase,
            a,
            &container.types[j],
            allow_interface_equality,
            &mut inner,
            depth,
        );
        assert(v.types[j as int] == container.types@[j as int]@);
        if contained {
            return (true, noted);
        }
        noted =
        Noted {
            coerced: noted.coerced && is_set(inner.type_coerced),
            from_nested_mixed: noted.from_nested_mixed && is_set(
                inner.type_coerced_from_nested_mixed,
            ),
            from_nested_any: noted.from_nested_any && is_set(inner.type_coerced_from_nested_any),
            from_as_mixed: noted.from_as_mixed && is_set(inner.type_coerced_from_as_mixed),
            to_literal: noted.to_literal && is_set(inner.type_coerced_to_literal),
        };
        j += 1;
    }
    (false, noted)
}

/// What comparing two unions comes to once the first alternative of the
/// input that no alternative of the container contains is known.
proof fn lemma_union_fails(
    cb: CodebaseInfo,
    u: UnionView,
    v: UnionView,
    ignore_null: bool,
    ignore_false: bool,
    allow_interface_equality: bool,
    r: ComparisonView,
    depth: nat,
    i: int,
)
    requires
        considered(u, i, ignore_null, ignore_false),
        !matched(cb, u, v, i, allow_interface_equality, depth),
        forall|k: int|
            0 <= k < i && #[trigger] considered(u, k, ignore_null, ignore_false) ==> matched(
                cb,
                u,
                v,
                k,
                allow_interface_equality,
                depth,
            ),
    ensures
        union_outcome(
            cb,
            u,
            v,
            ignore_null,
            ignore_false,
            allow_interface_equality,
            r,
            depth,
        ) == (
            false,
            ComparisonView {
                type_coerced: noted_or(
                    cb,
                    u.types[i],
                    v,
                    allow_interface_equality,
                    depth,
                    r,
                    Finding::Coerced,
                ),
                type_coerced_from_nested_mixed: noted_or(
                    cb,
                    u.types[i],
                    v,
                    allow_interface_equality,
                    depth,
                    r,
                    Finding::FromNestedMixed,
                ),
                type_coerced_from_nested_any: noted_or(
                    cb,
                    u.types[i],
                    v,
                    allow_interface_equality,
                    depth,
                    r,
                    Finding::FromNestedAny,
                ),
                type_coerced_from_as_mixed: noted_or(
                    cb,
                    u.types[i],
                    v,
                    allow_interface_equality,
                    depth,
                    r,
                    Finding::FromAsMixed,
                ),
                type_coerced_to_literal: noted_or(
                    cb,
                    u.types[i],
                    v,
                    allow_interface_equality,
                    depth,
                    r,
                    Finding::ToLiteral,
                ),
                ..r
            },
        ),
{
    let first = first_unmatched(cb, u, v, ignore_null, ignore_false, allow_interface_equality, depth);
    assert(considered(u, first, ignore_null, ignore_false));
    assert(first == i);
}

/// The finding is set, or as it was.
fn set_or_keep(noted: bool, own: Option<bool>) -> (r: Option<bool>)
    ensures
        r == if noted {
            Some(true)
        } else {
            own
        },
{
    if noted {
        Some(true)
    } else {
        own
    }
}

/// Decides whether every value of the union `input` is a value of the
/// union `container`, and notes in `result` what coercion a failed
/// comparison would have taken. With `ignore_null` or `ignore_false`,
/// `null` or `false` in the input is passed over. Type arguments and
/// bounds are followed `depth` levels deep; below that the answer is no.
pub fn union_is_contained_by(
    codebase: &CodebaseInfo,
    input: &TUnion,
    container: &TUnion,
    ignore_null: bool,
    ignore_false: bool,
    allow_interface_equality: bool,
    result: &mut TypeComparisonResult,
    depth: usize,
) -> (r: bool)
    requires
        codebase.wf(),
    ensures
        (r, final(result)@) == union_outcome(
            *codebase,
            input@,
            container@,
            ignore_null,
            ignore_false,
            allow_interface_equality,
            old(result)@,
            depth as nat,
        ),
    decreases depth, 6nat, 0nat,
{
    let ghost u = input@;
    let ghost v = container@;
    let ghost cb = *codebase;
    let ghost d = depth as nat;
    proof {
        crate::types::lemma_union_view(*input);
        crate::types::lemma_union_view(*container);
    }
    let mut i: usize = 0;
    while i < input.types.len()
        invariant
            i <= input.types.len(),
            codebase.wf(),
            cb == *codebase,
            d == depth as nat,
            u == input@,
            v == container@,
            u.types == atomic_views(input.types@),
            v.types.len() == container.types@.len(),
            *result == *old(result),
            forall|k: int|
                0 <= k < i && #[trigger] considered(u, k, ignore_null, ignore_false) ==> matched(
                    cb,
                    u,
                    v,
                    k,
                    allow_interface_equality,
                    d,
                ),
        decreases input.types.len() - i,
    {
        let a = &input.types[i];
        assert(u.types[i as int] == a@);
        let skipped = (ignore_null && matches!(a, TAtomic::TNull)) || (ignore_false && matches!(
            a,
            TAtomic::TFalse
        ));
        if !skipped {
            let (found, noted) = find_container(
                codebase,
                a,
                container,
                allow_interface_equality,
                depth,
            );
            if !found {
                proof {
                    lemma_union_fails(
                        cb,
                        u,
                        v,
                        ignore_null,
                        ignore_false,
                        allow_interface_equality,
                        result@,
                        d,
                        i as int,
                    );
                }
                let some = container.types.len() > 0;
                result.type_coerced = set_or_keep(some && noted.coerced, result.type_coerced);
                result.type_coerced_from_nested_mixed = set_or_keep(
                    some && noted.from_nested_mixed,
                    result.type_coerced_from_nested_mixed,
                );
                result.type_coerced_from_nested_any = set_or_keep(
                    some && noted.from_nested_any,
                    result.type_coerced_from_nested_any,
                );
                result.type_coerced_from_as_mixed = set_or_keep(
                    some && noted.from_as_mixed,
                    result.type_coerced_from_as_mixed,
                );
                result.type_coerced_to_literal = set_or_keep(
                    some && noted.to_literal,
                    result.type_coerced_to_literal,
                );
                return false;
            }
        }
        i += 1;
    }
    true
}

} // verus!
