//! Atomic types and their unions, with the mathematical values that the
//! contracts of this library speak of.
use crate::seq_set::distinct;
use crate::text::Text;
use vstd::prelude::*;

verus! {

/// One concrete type shape.
#[derive(Debug, PartialEq, Eq)]
#[allow(inconsistent_fields)]
pub enum TAtomic {
    TArraykey,
    TBool,
    TFalse,
    TTrue,
    TInt,
    TLiteralInt { value: i64 },
    TString,
    TLiteralString { value: String },
    TNull,
    TNothing,
    TMixed,
    TMixedAny,
    TMixedFromLoopIsset,
    TPlaceholder,
    TObject,
    TEnum { name: String },
    TEnumLiteralCase { enum_name: String, member_name: String },
    TNamedObject {
        name: String,
        type_params: Option<Vec<TUnion>>,
        is_this: bool,
        extra_types: Option<Vec<TAtomic>>,
        remapped_params: bool,
    },
    TTemplateParam {
        param_name: String,
        as_type: TUnion,
        defining_entity: String,
        extra_types: Option<Vec<TAtomic>>,
    },
}

/// A set of alternatives: the value has one of the listed atomic types.
#[derive(Debug, PartialEq, Eq)]
pub struct TUnion {
    pub types: Vec<TAtomic>,
    pub had_template: bool,
}

/// The mathematical value of a [`TAtomic`].
#[allow(inconsistent_fields)]
pub enum AtomicView {
    TArraykey,
    TBool,
    TFalse,
    TTrue,
    TInt,
    TLiteralInt { value: i64 },
    TString,
    TLiteralString { value: Text },
    TNull,
    TNothing,
    TMixed,
    TMixedAny,
    TMixedFromLoopIsset,
    TPlaceholder,
    TObject,
    TEnum { name: Text },
    TEnumLiteralCase { enum_name: Text, member_name: Text },
    TNamedObject {
        name: Text,
        type_params: Option<Seq<UnionView>>,
        is_this: bool,
        extra_types: Option<Seq<AtomicView>>,
        remapped_params: bool,
    },
    TTemplateParam {
        param_name: Text,
        as_type: UnionView,
        defining_entity: Text,
        extra_types: Option<Seq<AtomicView>>,
    },
}

/// The mathematical value of a [`TUnion`].
pub struct UnionView {
    pub types: Seq<AtomicView>,
    pub had_template: bool,
}

/// The value of an atomic type.
pub open spec fn atomic_view(a: TAtomic) -> AtomicView
    decreases a,
{
    match a {
        TAtomic::TArraykey => AtomicView::TArraykey,
        TAtomic::TBool => AtomicView::TBool,
        TAtomic::TFalse => AtomicView::TFalse,
        TAtomic::TTrue => AtomicView::TTrue,
        TAtomic::TInt => AtomicView::TInt,
        TAtomic::TLiteralInt { value } => AtomicView::TLiteralInt { value },
        TAtomic::TString => AtomicView::TString,
        TAtomic::TLiteralString { value } => AtomicView::TLiteralString { value: value@ },
        TAtomic::TNull => AtomicView::TNull,
        TAtomic::TNothing => AtomicView::TNothing,
        TAtomic::TMixed => AtomicView::TMixed,
        TAtomic::TMixedAny => AtomicView::TMixedAny,
        TAtomic::TMixedFromLoopIsset => AtomicView::TMixedFromLoopIsset,
        TAtomic::TPlaceholder => AtomicView::TPlaceholder,
        TAtomic::TObject => AtomicView::TObject,
        TAtomic::TEnum { name } => AtomicView::TEnum { name: name@ },
        TAtomic::TEnumLiteralCase { enum_name, member_name } => AtomicView::TEnumLiteralCase {
            enum_name: enum_name@,
            member_name: member_name@,
        },
        TAtomic::TNamedObject { name, type_params, is_this, extra_types, remapped_params } => {
            AtomicView::TNamedObject {
                name: name@,
                type_params: match type_params {
                    None => None,
                    Some(ps) => Some(
                        Seq::new(
                            ps@.len(),
                            |i: int|
                                if 0 <= i < ps@.len() {
                                    union_view(ps@[i])
                                } else {
                                    arbitrary()
                                },
                        ),
                    ),
                },
                is_this,
                extra_types: match extra_types {
                    None => None,
                    Some(es) => Some(
                        Seq::new(
                            es@.len(),
                            |i: int|
                                if 0 <= i < es@.len() {
                                    atomic_view(es@[i])
                                } else {
                                    arbitrary()
                                },
                        ),
                    ),
                },
                remapped_params,
            }
        },
        TAtomic::TTemplateParam { param_name, as_type, defining_entity, extra_types } => {
            AtomicView::TTemplateParam {
                param_name: param_name@,
                as_type: union_view(as_type),
                defining_entity: defining_entity@,
                extra_types: match extra_types {
                    None => None,
                    Some(es) => Some(
                        Seq::new(
                            es@.len(),
                            |i: int|
                                if 0 <= i < es@.len() {
                                    atomic_view(es@[i])
                                } else {
                                    arbitrary()
                                },
                        ),
                    ),
                },
            }
        },
    }
}

/// The value of a union.
pub open spec fn union_view(u: TUnion) -> UnionView
    decreases u,
{
    UnionView {
        types: Seq::new(
            u.types@.len(),
            |i: int|
                if 0 <= i < u.types@.len() {
                    atomic_view(u.types@[i])
                } else {
                    arbitrary()
                },
        ),
        had_template: u.had_template,
    }
}

impl View for TAtomic {
    type V = AtomicView;

    open spec fn view(&self) -> AtomicView {
        atomic_view(*self)
    }
}

impl View for TUnion {
    type V = UnionView;

    open spec fn view(&self) -> UnionView {
        union_view(*self)
    }
}

/// The values of a sequence of atomic types.
pub open spec fn atomic_views(s: Seq<TAtomic>) -> Seq<AtomicView> {
    s.map_values(|a: TAtomic| a@)
}

/// The values of a sequence of unions.
pub open spec fn union_views(s: Seq<TUnion>) -> Seq<UnionView> {
    s.map_values(|u: TUnion| u@)
}

/// The values of an optional list of atomic types.
pub open spec fn opt_atomic_views(o: Option<Vec<TAtomic>>) -> Option<Seq<AtomicView>> {
    match o {
        None => None,
        Some(v) => Some(atomic_views(v@)),
    }
}

/// The values of an optional list of unions.
pub open spec fn opt_union_views(o: Option<Vec<TUnion>>) -> Option<Seq<UnionView>> {
    match o {
        None => None,
        Some(v) => Some(union_views(v@)),
    }
}

/// The value of a union lists the values of its alternatives.
pub broadcast proof fn lemma_union_view(u: TUnion)
    ensures
        #![trigger u@]
        u@.types == atomic_views(u.types@),
        u@.had_template == u.had_template,
{
    assert(u@.types =~= atomic_views(u.types@));
}

/// The value of a named object lists the values of its parts.
pub broadcast proof fn lemma_named_object_view(a: TAtomic)
    requires
        a is TNamedObject,
    ensures
        #![trigger a@]
        a@ == (AtomicView::TNamedObject {
            name: a->TNamedObject_name@,
            type_params: opt_union_views(a->TNamedObject_type_params),
            is_this: a->TNamedObject_is_this,
            extra_types: opt_atomic_views(a->TNamedObject_extra_types),
            remapped_params: a->TNamedObject_remapped_params,
        }),
{
    match a->TNamedObject_type_params {
        Some(ps) => {
            assert(a@->TNamedObject_type_params->0 =~= union_views(ps@));
        },
        None => {},
    }
    match a->TNamedObject_extra_types {
        Some(es) => {
            assert(a@->TNamedObject_extra_types->0 =~= atomic_views(es@));
        },
        None => {},
    }
}

/// The value of a template parameter lists the values of its parts.
pub broadcast proof fn lemma_template_param_view(a: TAtomic)
    requires
        a is TTemplateParam,
    ensures
        #![trigger a@]
        a@ == (AtomicView::TTemplateParam {
            param_name: a->TTemplateParam_param_name@,
            as_type: a->TTemplateParam_as_type@,
            defining_entity: a->TTemplateParam_defining_entity@,
            extra_types: opt_atomic_views(a->TTemplateParam_extra_types),
        }),
{
    match a->TTemplateParam_extra_types {
        Some(es) => {
            assert(a@->TTemplateParam_extra_types->0 =~= atomic_views(es@));
        },
        None => {},
    }
}

/// A copy of a list of atomic types.
pub fn clone_atomics(v: &Vec<TAtomic>) -> (r: Vec<TAtomic>)
    ensures
        atomic_views(r@) == atomic_views(v@),
    decreases v,
{
    let mut r: Vec<TAtomic> = Vec::new();
    let mut i: usize = 0;
    while i < v.len()
        invariant
            i <= v.len(),
            r.len() == i,
            forall|j: int| 0 <= j < i ==> r@[j]@ == v@[j]@,
        decreases v.len() - i,
    {
        r.push(clone_atomic(&v[i]));
        i += 1;
    }
    assert(atomic_views(r@) =~= atomic_views(v@));
    r
}

/// A copy of a list of unions.
pub fn clone_unions(v: &Vec<TUnion>) -> (r: Vec<TUnion>)
    ensures
        union_views(r@) == union_views(v@),
    decreases v,
{
    let mut r: Vec<TUnion> = Vec::new();
    let mut i: usize = 0;
    while i < v.len()
        invariant
            i <= v.len(),
            r.len() == i,
            forall|j: int| 0 <= j < i ==> r@[j]@ == v@[j]@,
        decreases v.len() - i,
    {
        r.push(clone_union(&v[i]));
        i += 1;
    }
    assert(union_views(r@) =~= union_views(v@));
    r
}

/// A copy of an atomic type.
pub fn clone_atomic(a: &TAtomic) -> (r: TAtomic)
    ensures
        r@ == a@,
    decreases a,
{
    broadcast use group_type_views;

    match a {
        TAtomic::TArraykey => TAtomic::TArraykey,
        TAtomic::TBool => TAtomic::TBool,
        TAtomic::TFalse => TAtomic::TFalse,
        TAtomic::TTrue => TAtomic::TTrue,
        TAtomic::TInt => TAtomic::TInt,
        TAtomic::TLiteralInt { value } => TAtomic::TLiteralInt { value: *value },
        TAtomic::TString => TAtomic::TString,
        TAtomic::TLiteralString { value } => TAtomic::TLiteralString { value: value.clone() },
        TAtomic::TNull => TAtomic::TNull,
        TAtomic::TNothing => TAtomic::TNothing,
        TAtomic::TMixed => TAtomic::TMixed,
        TAtomic::TMixedAny => TAtomic::TMixedAny,
        TAtomic::TMixedFromLoopIsset => TAtomic::TMixedFromLoopIsset,
        TAtomic::TPlaceholder => TAtomic::TPlaceholder,
        TAtomic::TObject => TAtomic::TObject,
        TAtomic::TEnum { name } => TAtomic::TEnum { name: name.clone() },
        TAtomic::TEnumLiteralCase { enum_name, member_name } => TAtomic::TEnumLiteralCase {
            enum_name: enum_name.clone(),
            member_name: member_name.clone(),
        },
        TAtomic::TNamedObject { name, type_params, is_this, extra_types, remapped_params } => {
            let ps = match type_params {
                None => None,
                Some(v) => Some(clone_unions(v)),
            };
            let es = match extra_types {
                None => None,
                Some(v) => Some(clone_atomics(v)),
            };
            TAtomic::TNamedObject {
                name: name.clone(),
                type_params: ps,
                is_this: *is_this,
                extra_types: es,
                remapped_params: *remapped_params,
            }
        },
        TAtomic::TTemplateParam { param_name, as_type, defining_entity, extra_types } => {
            let es = match extra_types {
                None => None,
                Some(v) => Some(clone_atomics(v)),
            };
            TAtomic::TTemplateParam {
                param_name: param_name.clone(),
                as_type: clone_union(as_type),
                defining_entity: defining_entity.clone(),
                extra_types: es,
            }
        },
    }
}

/// A copy of a union.
pub fn clone_union(u: &TUnion) -> (r: TUnion)
    ensures
        r@ == u@,
    decreases u,
{
    broadcast use group_type_views;

    TUnion { types: clone_atomics(&u.types), had_template: u.had_template }
}

impl Clone for TAtomic {
    fn clone(&self) -> (r: Self)
        ensures
            r@ == self@,
    {
        clone_atomic(self)
    }
}

impl Clone for TUnion {
    fn clone(&self) -> (r: Self)
        ensures
            r@ == self@,
    {
        clone_union(self)
    }
}

/// Decides whether two lists of atomic types have the same values.
pub fn atomics_eq(a: &Vec<TAtomic>, b: &Vec<TAtomic>) -> (r: bool)
    ensures
        r == (atomic_views(a@) == atomic_views(b@)),
    decreases a,
{
    if a.len() != b.len() {
        assert(atomic_views(a@).len() != atomic_views(b@).len());
        return false;
    }
    let mut i: usize = 0;
    while i < a.len()
        invariant
            i <= a.len(),
            a.len() == b.len(),
            forall|j: int| 0 <= j < i ==> a@[j]@ == b@[j]@,
        decreases a.len() - i,
    {
        if !atomic_eq(&a[i], &b[i]) {
            assert(atomic_views(a@)[i as int] != atomic_views(b@)[i as int]);
            return false;
        }
        i += 1;
    }
    assert(atomic_views(a@) =~= atomic_views(b@));
    true
}

/// Decides whether two lists of unions have the same values.
pub fn unions_eq(a: &Vec<TUnion>, b: &Vec<TUnion>) -> (r: bool)
    ensures
        r == (union_views(a@) == union_views(b@)),
    decreases a,
{
    if a.len() != b.len() {
        assert(union_views(a@).len() != union_views(b@).len());
        return false;
    }
    let mut i: usize = 0;
    while i < a.len()
        invariant
            i <= a.len(),
            a.len() == b.len(),
            forall|j: int| 0 <= j < i ==> a@[j]@ == b@[j]@,
        decreases a.len() - i,
    {
        if !union_eq(&a[i], &b[i]) {
            assert(union_views(a@)[i as int] != union_views(b@)[i as int]);
            return false;
        }
        i += 1;
    }
    assert(union_views(a@) =~= union_views(b@));
    true
}

/// Decides whether two optional lists of atomic types have the same
/// values.
fn opt_atomics_eq(a: &Option<Vec<TAtomic>>, b: &Option<Vec<TAtomic>>) -> (r: bool)
    ensures
        r == (opt_atomic_views(*a) == opt_atomic_views(*b)),
    decreases a,
{
    match a {
        None => b.is_none(),
        Some(x) => match b {
            None => false,
            Some(y) => atomics_eq(x, y),
        },
    }
}

/// Decides whether two optional lists of unions have the same values.
fn opt_unions_eq(a: &Option<Vec<TUnion>>, b: &Option<Vec<TUnion>>) -> (r: bool)
    ensures
        r == (opt_union_views(*a) == opt_union_views(*b)),
    decreases a,
{
    match a {
        None => b.is_none(),
        Some(x) => match b {
            None => false,
            Some(y) => unions_eq(x, y),
        },
    }
}

/// Decides whether two atomic types have the same value.
pub fn atomic_eq(a: &TAtomic, b: &TAtomic) -> (r: bool)
    ensures
        r == (a@ == b@),
    decreases a,
{
    broadcast use group_type_views;

    match a {
        TAtomic::TArraykey => matches!(b, TAtomic::TArraykey),
        TAtomic::TBool => matches!(b, TAtomic::TBool),
        TAtomic::TFalse => matches!(b, TAtomic::TFalse),
        TAtomic::TTrue => matches!(b, TAtomic::TTrue),
        TAtomic::TInt => matches!(b, TAtomic::TInt),
        TAtomic::TLiteralInt { value } => match b {
            TAtomic::TLiteralInt { value: other } => *value == *other,
            _ => false,
        },
        TAtomic::TString => matches!(b, TAtomic::TString),
        TAtomic::TLiteralString { value } => match b {
            TAtomic::TLiteralString { value: other } => *value == *other,
            _ => false,
        },
        TAtomic::TNull => matches!(b, TAtomic::TNull),
        TAtomic::TNothing => matches!(b, TAtomic::TNothing),
        TAtomic::TMixed => matches!(b, TAtomic::TMixed),
        TAtomic::TMixedAny => matches!(b, TAtomic::TMixedAny),
        TAtomic::TMixedFromLoopIsset => matches!(b, TAtomic::TMixedFromLoopIsset),
        TAtomic::TPlaceholder => matches!(b, TAtomic::TPlaceholder),
        TAtomic::TObject => matches!(b, TAtomic::TObject),
        TAtomic::TEnum { name } => match b {
            TAtomic::TEnum { name: other } => *name == *other,
            _ => false,
        },
        TAtomic::TEnumLiteralCase { enum_name, member_name } => match b {
            TAtomic::TEnumLiteralCase { enum_name: e2, member_name: m2 } => *enum_name == *e2
                && *member_name == *m2,
            _ => false,
        },
        TAtomic::TNamedObject { name, type_params, is_this, extra_types, remapped_params } => match b {
            TAtomic::TNamedObject {
                name: n2,
                type_params: p2,
                is_this: t2,
                extra_types: e2,
                remapped_params: r2,
            } => *name == *n2 && *is_this == *t2 && *remapped_params == *r2 && opt_unions_eq(
                type_params,
                p2,
            ) && opt_atomics_eq(extra_types, e2),
            _ => false,
        },
        TAtomic::TTemplateParam { param_name, as_type, defining_entity, extra_types } => match b {
            TAtomic::TTemplateParam {
                param_name: n2,
                as_type: a2,
                defining_entity: d2,
                extra_types: e2,
            } => *param_name == *n2 && *defining_entity == *d2 && union_eq(as_type, a2)
                && opt_atomics_eq(extra_types, e2),
            _ => false,
        },
    }
}

/// Decides whether two unions have the same value.
pub fn union_eq(a: &TUnion, b: &TUnion) -> (r: bool)
    ensures
        r == (a@ == b@),
    decreases a,
{
    broadcast use group_type_views;

    a.had_template == b.had_template && atomics_eq(&a.types, &b.types)
}

pub broadcast group group_type_views {
    lemma_union_view,
    lemma_named_object_view,
    lemma_template_param_view,
}

/// The atomic type stands for any value.
pub open spec fn is_mixed_view(a: AtomicView) -> bool {
    a is TMixed || a is TMixedAny || a is TMixedFromLoopIsset
}

/// The atomic type stands for one value only.
pub open spec fn is_literal_view(a: AtomicView) -> bool {
    a is TLiteralInt || a is TLiteralString || a is TTrue || a is TFalse || a is TNull
        || a is TEnumLiteralCase
}

/// The atomic type is an object type.
pub open spec fn is_object_view(a: AtomicView) -> bool {
    a is TObject || a is TNamedObject
}

/// The union of the one alternative `a`.
pub open spec fn wrapped(a: AtomicView) -> UnionView {
    UnionView { types: seq![a], had_template: false }
}

/// The union with the given alternatives, each once.
pub open spec fn union_of(types: Seq<AtomicView>) -> UnionView {
    UnionView { types: distinct(types), had_template: false }
}

/// The union that only says "nothing".
pub open spec fn is_nothing_view(u: UnionView) -> bool {
    u.types.len() == 1 && u.types[0] is TNothing
}

/// The union that only holds a placeholder.
pub open spec fn is_placeholder_view(u: UnionView) -> bool {
    u.types.len() == 1 && u.types[0] is TPlaceholder
}

/// Some alternative is a template parameter.
pub open spec fn has_template_view(u: UnionView) -> bool {
    exists|i: int| 0 <= i < u.types.len() && (#[trigger] u.types[i]) is TTemplateParam
}

/// The one alternative of `u` is a literal of the one alternative of `o`.
pub open spec fn is_literal_of_view(u: UnionView, o: UnionView) -> bool {
    u.types.len() == 1 && o.types.len() == 1 && ((u.types[0] is TLiteralInt && o.types[0] is TInt)
        || (u.types[0] is TLiteralString && o.types[0] is TString))
}

/// The atomic type is the object that a method was called on.
pub open spec fn is_static_view(a: AtomicView) -> bool {
    a matches AtomicView::TNamedObject { is_this, .. } && is_this
}

/// Some alternative is the object that a method was called on.
pub open spec fn has_static_object_view(u: UnionView) -> bool {
    exists|i: int| 0 <= i < u.types.len() && is_static_view(#[trigger] u.types[i])
}

/// Every alternative is the object that a method was called on.
pub open spec fn is_static_object_view(u: UnionView) -> bool {
    forall|i: int| 0 <= i < u.types.len() ==> is_static_view(#[trigger] u.types[i])
}

/// The one alternative stands for any value.
pub open spec fn is_mixed_union_view(u: UnionView) -> bool {
    u.types.len() == 1 && is_mixed_view(u.types[0])
}

/// The one alternative is `arraykey`.
pub open spec fn is_arraykey_view(u: UnionView) -> bool {
    u.types.len() == 1 && u.types[0] is TArraykey
}

/// There is an alternative, and every alternative is an object type.
pub open spec fn is_objecty_view(u: UnionView) -> bool {
    u.types.len() > 0 && forall|i: int|
        0 <= i < u.types.len() ==> is_object_view(#[trigger] u.types[i])
}

/// Some alternative is an object type.
pub open spec fn has_object_type_view(u: UnionView) -> bool {
    exists|i: int| 0 <= i < u.types.len() && is_object_view(#[trigger] u.types[i])
}

/// The atomic type with `t` as one more intersection constraint. Only a
/// named object and a template parameter carry such constraints.
pub open spec fn with_intersection(a: AtomicView, t: AtomicView) -> AtomicView {
    match a {
        AtomicView::TNamedObject { name, type_params, is_this, extra_types, remapped_params } => {
            AtomicView::TNamedObject {
                name,
                type_params,
                is_this,
                extra_types: Some(
                    match extra_types {
                        Some(es) => es.push(t),
                        None => seq![t],
                    },
                ),
                remapped_params,
            }
        },
        AtomicView::TTemplateParam { param_name, as_type, defining_entity, extra_types } => {
            AtomicView::TTemplateParam {
                param_name,
                as_type,
                defining_entity,
                extra_types: Some(
                    match extra_types {
                        Some(es) => es.push(t),
                        None => seq![t],
                    },
                ),
            }
        },
        _ => a,
    }
}

/// The type argument, or "mixed" in place of a placeholder.
pub open spec fn placeholder_filled(u: UnionView) -> UnionView {
    if is_placeholder_view(u) {
        wrapped(AtomicView::TMixedAny)
    } else {
        u
    }
}

/// The atomic type with "mixed" in place of each type argument that is a
/// placeholder.
pub open spec fn without_placeholders(a: AtomicView) -> AtomicView {
    match a {
        AtomicView::TNamedObject {
            name,
            type_params: Some(ps),
            is_this,
            extra_types,
            remapped_params,
        } => AtomicView::TNamedObject {
            name,
            type_params: Some(ps.map_values(|u: UnionView| placeholder_filled(u))),
            is_this,
            extra_types,
            remapped_params,
        },
        _ => a,
    }
}

/// The union of the one alternative `a`.
pub fn wrap_atomic(a: TAtomic) -> (u: TUnion)
    ensures
        u@ == wrapped(a@),
{
    broadcast use group_type_views;

    let mut types: Vec<TAtomic> = Vec::new();
    types.push(a);
    let u = TUnion { types, had_template: false };
    assert(u@.types =~= seq![a@]);
    u
}

/// The union that says "any value", of unknown origin.
pub fn get_mixed_any() -> (u: TUnion)
    ensures
        u@ == wrapped(AtomicView::TMixedAny),
{
    wrap_atomic(TAtomic::TMixedAny)
}

/// The union that says "any value".
pub fn get_mixed() -> (u: TUnion)
    ensures
        u@ == wrapped(AtomicView::TMixed),
{
    wrap_atomic(TAtomic::TMixed)
}

/// The union that says "no value".
pub fn get_nothing() -> (u: TUnion)
    ensures
        u@ == wrapped(AtomicView::TNothing),
{
    wrap_atomic(TAtomic::TNothing)
}

/// The union that says "any value": inside a loop, one that an `isset`
/// check in an earlier iteration may have made.
pub fn get_mixed_maybe_from_loop(from_loop_isset: bool) -> (u: TUnion)
    ensures
        u@ == wrapped(
            if from_loop_isset {
                AtomicView::TMixedFromLoopIsset
            } else {
                AtomicView::TMixedAny
            },
        ),
{
    wrap_atomic(
        if from_loop_isset {
            TAtomic::TMixedFromLoopIsset
        } else {
            TAtomic::TMixedAny
        },
    )
}

/// True when a list of atomic types holds one with the value of `a`.
pub fn has_atomic(v: &Vec<TAtomic>, a: &TAtomic) -> (r: bool)
    ensures
        r == atomic_views(v@).contains(a@),
{
    let mut i: usize = 0;
    while i < v.len()
        invariant
            i <= v.len(),
            forall|j: int| 0 <= j < i ==> atomic_views(v@)[j] != a@,
        decreases v.len() - i,
    {
        if atomic_eq(&v[i], a) {
            assert(atomic_views(v@)[i as int] == a@);
            return true;
        }
        i += 1;
    }
    false
}

impl TAtomic {
    /// True when the type stands for any value.
    pub fn is_mixed(&self) -> (r: bool)
        ensures
            r == is_mixed_view(self@),
    {
        match self {
            TAtomic::TMixed | TAtomic::TMixedAny | TAtomic::TMixedFromLoopIsset => true,
            _ => false,
        }
    }

    /// True when the type stands for one value only.
    pub fn is_literal(&self) -> (r: bool)
        ensures
            r == is_literal_view(self@),
    {
        match self {
            TAtomic::TLiteralInt { .. }
            | TAtomic::TLiteralString { .. }
            | TAtomic::TTrue
            | TAtomic::TFalse
            | TAtomic::TNull
            | TAtomic::TEnumLiteralCase { .. } => true,
            _ => false,
        }
    }

    /// True when the type is an object type.
    pub fn is_object(&self) -> (r: bool)
        ensures
            r == is_object_view(self@),
    {
        match self {
            TAtomic::TObject | TAtomic::TNamedObject { .. } => true,
            _ => false,
        }
    }

    /// The type with `t` as one more intersection constraint.
    pub fn add_intersection_type(self, t: TAtomic) -> (r: TAtomic)
        ensures
            r@ == with_intersection(self@, t@),
    {
        broadcast use group_type_views;

        match self {
            TAtomic::TNamedObject { name, type_params, is_this, extra_types, remapped_params } => {
                let mut es = match extra_types {
                    Some(es) => es,
                    None => Vec::new(),
                };
                let ghost before = atomic_views(es@);
                es.push(t);
                assert(atomic_views(es@) =~= before.push(t@));
                assert(extra_types is None ==> before =~= Seq::<AtomicView>::empty());
                TAtomic::TNamedObject {
                    name,
                    type_params,
                    is_this,
                    extra_types: Some(es),
                    remapped_params,
                }
            },
            TAtomic::TTemplateParam { param_name, as_type, defining_entity, extra_types } => {
                let mut es = match extra_types {
                    Some(es) => es,
                    None => Vec::new(),
                };
                let ghost before = atomic_views(es@);
                es.push(t);
                assert(atomic_views(es@) =~= before.push(t@));
                assert(extra_types is None ==> before =~= Seq::<AtomicView>::empty());
                TAtomic::TTemplateParam { param_name, as_type, defining_entity, extra_types: Some(es) }
            },
            other => other,
        }
    }

    /// The type with "mixed" in place of each type argument that is a
    /// placeholder.
    pub fn remove_placeholders(self) -> (r: TAtomic)
        ensures
            r@ == without_placeholders(self@),
    {
        broadcast use group_type_views;

        match self {
            TAtomic::TNamedObject {
                name,
                type_params: Some(ps),
                is_this,
                extra_types,
                remapped_params,
            } => {
                let mut filled: Vec<TUnion> = Vec::new();
                let mut i: usize = 0;
                while i < ps.len()
                    invariant
                        i <= ps.len(),
                        filled.len() == i,
                        forall|j: int|
                            0 <= j < i ==> (#[trigger] filled@[j])@ == placeholder_filled(ps@[j]@),
                    decreases ps.len() - i,
                {
                    if ps[i].is_placeholder() {
                        filled.push(get_mixed_any());
                    } else {
                        filled.push(ps[i].clone());
                    }
                    i += 1;
                }
                assert(union_views(filled@) =~= union_views(ps@).map_values(
                    |u: UnionView| placeholder_filled(u),
                ));
                TAtomic::TNamedObject {
                    name,
                    type_params: Some(filled),
                    is_this,
                    extra_types,
                    remapped_params,
                }
            },
            other => other,
        }
    }
}

impl TUnion {
    /// The union with the given alternatives, each once.
    pub fn new(types: Vec<TAtomic>) -> (u: TUnion)
        ensures
            u@ == union_of(atomic_views(types@)),
    {
        broadcast use group_type_views;

        let ghost tv = atomic_views(types@);
        let mut unique: Vec<TAtomic> = Vec::new();
        let mut i: usize = 0;
        assert(tv.take(0) =~= Seq::<AtomicView>::empty());
        assert(atomic_views(unique@) =~= distinct(tv.take(0)));
        while i < types.len()
            invariant
                i <= types.len(),
                tv == atomic_views(types@),
                atomic_views(unique@) == distinct(tv.take(i as int)),
            decreases types.len() - i,
        {
            proof {
                assert(tv.take(i as int + 1).drop_last() =~= tv.take(i as int));
                assert(tv.take(i as int + 1).last() == types@[i as int]@);
            }
            if !has_atomic(&unique, &types[i]) {
                let ghost before = atomic_views(unique@);
                unique.push(types[i].clone());
                assert(atomic_views(unique@) =~= before.push(types@[i as int]@));
            }
            i += 1;
        }
        assert(tv.take(i as int) =~= tv);
        TUnion { types: unique, had_template: false }
    }

    /// True when the union only says "nothing".
    pub fn is_nothing(&self) -> (r: bool)
        ensures
            r == is_nothing_view(self@),
    {
        broadcast use group_type_views;

        self.types.len() == 1 && matches!(self.types[0], TAtomic::TNothing)
    }

    /// True when the union only holds a placeholder.
    pub fn is_placeholder(&self) -> (r: bool)
        ensures
            r == is_placeholder_view(self@),
    {
        broadcast use group_type_views;

        self.types.len() == 1 && matches!(self.types[0], TAtomic::TPlaceholder)
    }

    /// True when some alternative is a template parameter.
    pub fn has_template(&self) -> (r: bool)
        ensures
            r == has_template_view(self@),
    {
        broadcast use group_type_views;

        let mut i: usize = 0;
        while i < self.types.len()
            invariant
                i <= self.types.len(),
                self@.types == atomic_views(self.types@),
                forall|j: int| 0 <= j < i ==> !((#[trigger] self@.types[j]) is TTemplateParam),
            decreases self.types.len() - i,
        {
            if matches!(self.types[i], TAtomic::TTemplateParam { .. }) {
                assert(self@.types[i as int] is TTemplateParam);
                return true;
            }
            i += 1;
        }
        false
    }

    /// True when the one alternative of this union is a literal of the one
    /// alternative of `other`.
    pub fn is_literal_of(&self, other: &TUnion) -> (r: bool)
        ensures
            r == is_literal_of_view(self@, other@),
    {
        broadcast use group_type_views;

        if self.types.len() != 1 || other.types.len() != 1 {
            return false;
        }
        match self.types[0] {
            TAtomic::TLiteralInt { .. } => matches!(other.types[0], TAtomic::TInt),
            TAtomic::TLiteralString { .. } => matches!(other.types[0], TAtomic::TString),
            _ => false,
        }
    }

    /// True when some alternative is the object that a method was called
    /// on.
    pub fn has_static_object(&self) -> (r: bool)
        ensures
            r == has_static_object_view(self@),
    {
        broadcast use group_type_views;

        let mut i: usize = 0;
        while i < self.types.len()
            invariant
                i <= self.types.len(),
                self@.types == atomic_views(self.types@),
                forall|j: int| 0 <= j < i ==> !is_static_view(#[trigger] self@.types[j]),
            decreases self.types.len() - i,
        {
            let is_static = match &self.types[i] {
                TAtomic::TNamedObject { is_this, .. } => *is_this,
                _ => false,
            };
            if is_static {
                assert(is_static_view(self@.types[i as int]));
                return true;
            }
            i += 1;
        }
        false
    }

    /// True when every alternative is the object that a method was called
    /// on.
    pub fn is_static_object(&self) -> (r: bool)
        ensures
            r == is_static_object_view(self@),
    {
        broadcast use group_type_views;

        let mut i: usize = 0;
        while i < self.types.len()
            invariant
                i <= self.types.len(),
                self@.types == atomic_views(self.types@),
                forall|j: int| 0 <= j < i ==> is_static_view(#[trigger] self@.types[j]),
            decreases self.types.len() - i,
        {
            let is_static = match &self.types[i] {
                TAtomic::TNamedObject { is_this, .. } => *is_this,
                _ => false,
            };
            if !is_static {
                assert(!is_static_view(self@.types[i as int]));
                return false;
            }
            i += 1;
        }
        true
    }

    /// True when the one alternative stands for any value; `from_any` then
    /// says whether it is of unknown origin.
    pub fn is_mixed_with_any(&self, from_any: &mut bool) -> (r: bool)
        ensures
            r == is_mixed_union_view(self@),
            *final(from_any) == if self@.types.len() == 1 {
                self@.types[0] is TMixedAny
            } else {
                *old(from_any)
            },
    {
        broadcast use group_type_views;

        if self.types.len() != 1 {
            return false;
        }
        *from_any = matches!(self.types[0], TAtomic::TMixedAny);
        self.types[0].is_mixed()
    }

    /// True when the one alternative is `arraykey`.
    pub fn is_arraykey(&self) -> (r: bool)
        ensures
            r == is_arraykey_view(self@),
    {
        broadcast use group_type_views;

        self.types.len() == 1 && matches!(self.types[0], TAtomic::TArraykey)
    }

    /// True when there is an alternative and every alternative is an
    /// object type.
    pub fn is_objecty(&self) -> (r: bool)
        ensures
            r == is_objecty_view(self@),
    {
        broadcast use group_type_views;

        if self.types.len() == 0 {
            return false;
        }
        let mut i: usize = 0;
        while i < self.types.len()
            invariant
                i <= self.types.len(),
                self@.types == atomic_views(self.types@),
                forall|j: int| 0 <= j < i ==> is_object_view(#[trigger] self@.types[j]),
            decreases self.types.len() - i,
        {
            if !self.types[i].is_object() {
                assert(!is_object_view(self@.types[i as int]));
                return false;
            }
            i += 1;
        }
        true
    }

    /// True when some alternative is an object type.
    pub fn has_object_type(&self) -> (r: bool)
        ensures
            r == has_object_type_view(self@),
    {
        broadcast use group_type_views;

        let mut i: usize = 0;
        while i < self.types.len()
            invariant
                i <= self.types.len(),
                self@.types == atomic_views(self.types@),
                forall|j: int| 0 <= j < i ==> !is_object_view(#[trigger] self@.types[j]),
            decreases self.types.len() - i,
        {
            if self.types[i].is_object() {
                assert(is_object_view(self@.types[i as int]));
                return true;
            }
            i += 1;
        }
        false
    }
}

} // verus!
