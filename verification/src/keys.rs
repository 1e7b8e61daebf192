//! The canonical text of types and assertions.
use crate::assertion::{Assertion, AssertionView};
use crate::text::Text;
use crate::types::{
    atomic_views, group_type_views, union_views, AtomicView, TAtomic, TUnion, UnionView,
};
use vstd::prelude::*;
use vstd::string::*;

verus! {

/// The decimal digit of a number below ten.
pub open spec fn digit(d: nat) -> char {
    if d == 0 {
        '0'
    } else if d == 1 {
        '1'
    } else if d == 2 {
        '2'
    } else if d == 3 {
        '3'
    } else if d == 4 {
        '4'
    } else if d == 5 {
        '5'
    } else if d == 6 {
        '6'
    } else if d == 7 {
        '7'
    } else if d == 8 {
        '8'
    } else {
        '9'
    }
}

/// The decimal numeral of a natural number.
pub open spec fn decimal(n: nat) -> Text
    decreases n,
{
    if n < 10 {
        seq![digit(n)]
    } else {
        decimal(n / 10) + seq![digit(n % 10)]
    }
}

/// The decimal numeral of an integer.
pub open spec fn signed_decimal(v: int) -> Text {
    if v < 0 {
        seq!['-'] + decimal((-v) as nat)
    } else {
        decimal(v as nat)
    }
}

/// The texts joined, with `separator` between each two.
pub open spec fn joined(parts: Seq<Text>, separator: Text) -> Text
    decreases parts.len(),
{
    if parts.len() == 0 {
        Seq::empty()
    } else if parts.len() == 1 {
        parts[0]
    } else {
        joined(parts.drop_last(), separator) + separator + parts.last()
    }
}

/// The text of each intersection constraint, each after an ampersand.
pub open spec fn constraints_id(extra_types: Option<Seq<AtomicView>>) -> Text
    decreases extra_types, 1nat,
{
    match extra_types {
        Some(es) => constraints_upto(es, es.len()),
        None => Seq::empty(),
    }
}

/// The text of the first `n` intersection constraints.
pub open spec fn constraints_upto(es: Seq<AtomicView>, n: nat) -> Text
    decreases es, n,
{
    if n == 0 || n > es.len() {
        Seq::empty()
    } else {
        constraints_upto(es, (n - 1) as nat) + "&"@ + atomic_id(es[n - 1])
    }
}

/// The texts of the first `n` unions.
pub open spec fn union_ids(us: Seq<UnionView>, n: nat) -> Seq<Text>
    decreases us, n,
{
    if n == 0 || n > us.len() {
        Seq::empty()
    } else {
        union_ids(us, (n - 1) as nat).push(union_id(us[n - 1]))
    }
}

/// The texts of the first `n` atomic types.
pub open spec fn atomic_ids(ts: Seq<AtomicView>, n: nat) -> Seq<Text>
    decreases ts, n,
{
    if n == 0 || n > ts.len() {
        Seq::empty()
    } else {
        atomic_ids(ts, (n - 1) as nat).push(atomic_id(ts[n - 1]))
    }
}

/// The text of an atomic type.
pub open spec fn atomic_id(a: AtomicView) -> Text
    decreases a, 0nat,
{
    match a {
        AtomicView::TArraykey => "arraykey"@,
        AtomicView::TBool => "bool"@,
        AtomicView::TFalse => "false"@,
        AtomicView::TTrue => "true"@,
        AtomicView::TInt => "int"@,
        AtomicView::TLiteralInt { value } => signed_decimal(value as int),
        AtomicView::TString => "string"@,
        AtomicView::TLiteralString { value } => "\""@ + value + "\""@,
        AtomicView::TNull => "null"@,
        AtomicView::TNothing => "nothing"@,
        AtomicView::TMixed => "mixed"@,
        AtomicView::TMixedAny => "any"@,
        AtomicView::TMixedFromLoopIsset => "mixed-from-loop-isset"@,
        AtomicView::TPlaceholder => "_"@,
        AtomicView::TObject => "object"@,
        AtomicView::TEnum { name } => name,
        AtomicView::TEnumLiteralCase { enum_name, member_name } => enum_name + "::"@ + member_name,
        AtomicView::TNamedObject { name, type_params, extra_types, .. } => name + (match type_params {
            Some(ps) => "<"@ + joined(union_ids(ps, ps.len()), ", "@) + ">"@,
            None => Seq::empty(),
        }) + constraints_id(extra_types),
        AtomicView::TTemplateParam { param_name, as_type, defining_entity, extra_types } => {
            param_name + ":"@ + defining_entity + " as "@ + union_id(as_type) + constraints_id(
                extra_types,
            )
        },
    }
}

/// The text of a union: the texts of its alternatives with bars between.
pub open spec fn union_id(u: UnionView) -> Text
    decreases u, 0nat,
{
    joined(atomic_ids(u.types, u.types.len()), "|"@)
}

/// The key of an assertion: the text by which it is known.
pub open spec fn assertion_key(a: AssertionView) -> Text {
    match a {
        AssertionView::Truthy => "!falsy"@,
        AssertionView::Falsy => "falsy"@,
        AssertionView::IsType(t) => atomic_id(t),
        AssertionView::IsNotType(t) => "!"@ + atomic_id(t),
        AssertionView::IsEqual(t) => "="@ + atomic_id(t),
        AssertionView::IsNotEqual(t) => "!="@ + atomic_id(t),
        AssertionView::IsIsset => "isset"@,
        AssertionView::IsNotIsset => "!isset"@,
        AssertionView::IsEqualIsset => "=isset"@,
        AssertionView::IsNotEqualIsset => "!=isset"@,
        AssertionView::ArrayKeyExists => "array-key-exists"@,
        AssertionView::ArrayKeyDoesNotExist => "!array-key-exists"@,
        AssertionView::NonEmptyCountable(exact) => if exact {
            "=non-empty-countable"@
        } else {
            "non-empty-countable"@
        },
        AssertionView::EmptyCountable(exact) => if exact {
            "!=non-empty-countable"@
        } else {
            "!non-empty-countable"@
        },
        AssertionView::HasExactCount(n) => "has-exactly-"@ + decimal(n as nat),
        AssertionView::DoesNotHaveExactCount(n) => "!has-exactly-"@ + decimal(n as nat),
    }
}

/// The decimal digit of a number below ten.
fn digit_str(d: u64) -> (r: &'static str)
    requires
        d < 10,
    ensures
        r@ == seq![digit(d as nat)],
{
    proof {
        reveal_strlit("0");
        reveal_strlit("1");
        reveal_strlit("2");
        reveal_strlit("3");
        reveal_strlit("4");
        reveal_strlit("5");
        reveal_strlit("6");
        reveal_strlit("7");
        reveal_strlit("8");
        reveal_strlit("9");
    }
    let r = if d == 0 {
        "0"
    } else if d == 1 {
        "1"
    } else if d == 2 {
        "2"
    } else if d == 3 {
        "3"
    } else if d == 4 {
        "4"
    } else if d == 5 {
        "5"
    } else if d == 6 {
        "6"
    } else if d == 7 {
        "7"
    } else if d == 8 {
        "8"
    } else {
        "9"
    };
    assert(r@ =~= seq![digit(d as nat)]);
    r
}

/// Appends the decimal numeral of `n`.
fn write_decimal(out: &mut String, n: u64)
    ensures
        final(out)@ == old(out)@ + decimal(n as nat),
    decreases n,
{
    if n >= 10 {
        write_decimal(out, n / 10);
        out.append(digit_str(n % 10));
        assert(out@ =~= old(out)@ + decimal(n as nat));
    } else {
        out.append(digit_str(n));
    }
}

/// Appends the decimal numeral of `v`.
fn write_signed(out: &mut String, v: i64)
    ensures
        final(out)@ == old(out)@ + signed_decimal(v as int),
{
    if v < 0 {
        proof {
            reveal_strlit("-");
        }
        out.append("-");
        let magnitude: u64 = ((-(v + 1)) as u64) + 1;
        write_decimal(out, magnitude);
        assert(out@ =~= old(out)@ + signed_decimal(v as int));
    } else {
        write_decimal(out, v as u64);
    }
}

/// Appends the text of each intersection constraint, each after an
/// ampersand.
fn write_constraints(out: &mut String, es: &Vec<TAtomic>)
    ensures
        final(out)@ == old(out)@ + constraints_upto(atomic_views(es@), es@.len()),
    decreases es, 1nat,
{
    let ghost ev = atomic_views(es@);
    let mut i: usize = 0;
    assert(out@ =~= old(out)@ + constraints_upto(ev, 0));
    while i < es.len()
        invariant
            i <= es.len(),
            ev == atomic_views(es@),
            out@ == old(out)@ + constraints_upto(ev, i as nat),
        decreases es.len() - i,
    {
        out.append("&");
        write_atomic(out, &es[i]);
        assert(ev[i as int] == es@[i as int]@);
        assert(out@ =~= old(out)@ + constraints_upto(ev, (i + 1) as nat));
        i += 1;
    }
}

/// Appends the texts of the type arguments, with commas between.
fn write_params(out: &mut String, params: &Vec<TUnion>)
    ensures
        final(out)@ == old(out)@ + joined(
            union_ids(union_views(params@), params@.len()),
            ", "@,
        ),
    decreases params, 1nat,
{
    let ghost pv = union_views(params@);
    let mut i: usize = 0;
    assert(out@ =~= old(out)@ + joined(union_ids(pv, 0), ", "@));
    while i < params.len()
        invariant
            i <= params.len(),
            pv == union_views(params@),
            out@ == old(out)@ + joined(union_ids(pv, i as nat), ", "@),
        decreases params.len() - i,
    {
        if i > 0 {
            out.append(", ");
        }
        write_union(out, &params[i]);
        proof {
            assert(pv[i as int] == params@[i as int]@);
            let ids = union_ids(pv, (i + 1) as nat);
            assert(ids.drop_last() =~= union_ids(pv, i as nat));
            assert(ids.last() == union_id(pv[i as int]));
            assert(out@ =~= old(out)@ + joined(ids, ", "@));
        }
        i += 1;
    }
}

/// Appends the text of an atomic type.
pub fn write_atomic(out: &mut String, a: &TAtomic)
    ensures
        final(out)@ == old(out)@ + atomic_id(a@),
    decreases a, 0nat,
{
    broadcast use group_type_views;

    match a {
        TAtomic::TArraykey => out.append("arraykey"),
        TAtomic::TBool => out.append("bool"),
        TAtomic::TFalse => out.append("false"),
        TAtomic::TTrue => out.append("true"),
        TAtomic::TInt => out.append("int"),
        TAtomic::TLiteralInt { value } => write_signed(out, *value),
        TAtomic::TString => out.append("string"),
        TAtomic::TLiteralString { value } => {
            out.append("\"");
            out.append(value.as_str());
            out.append("\"");
            assert(out@ =~= old(out)@ + atomic_id(a@));
        },
        TAtomic::TNull => out.append("null"),
        TAtomic::TNothing => out.append("nothing"),
        TAtomic::TMixed => out.append("mixed"),
        TAtomic::TMixedAny => out.append("any"),
        TAtomic::TMixedFromLoopIsset => out.append("mixed-from-loop-isset"),
        TAtomic::TPlaceholder => out.append("_"),
        TAtomic::TObject => out.append("object"),
        TAtomic::TEnum { name } => out.append(name.as_str()),
        TAtomic::TEnumLiteralCase { enum_name, member_name } => {
            out.append(enum_name.as_str());
            out.append("::");
            out.append(member_name.as_str());
            assert(out@ =~= old(out)@ + atomic_id(a@));
        },
        TAtomic::TNamedObject { name, type_params, extra_types, .. } => {
            out.append(name.as_str());
            match type_params {
                Some(ps) => {
                    out.append("<");
                    write_params(out, ps);
                    out.append(">");
                },
                None => {},
            }
            match extra_types {
                Some(es) => write_constraints(out, es),
                None => {},
            }
            assert(out@ =~= old(out)@ + atomic_id(a@));
        },
        TAtomic::TTemplateParam { param_name, as_type, defining_entity, extra_types } => {
            out.append(param_name.as_str());
            out.append(":");
            out.append(defining_entity.as_str());
            out.append(" as ");
            write_union(out, as_type);
            match extra_types {
                Some(es) => write_constraints(out, es),
                None => {},
            }
            assert(out@ =~= old(out)@ + atomic_id(a@));
        },
    }
}

/// Appends the text of a union.
pub fn write_union(out: &mut String, u: &TUnion)
    ensures
        final(out)@ == old(out)@ + union_id(u@),
    decreases u, 0nat,
{
    broadcast use group_type_views;

    let ghost tv = u@.types;
    let mut i: usize = 0;
    assert(out@ =~= old(out)@ + joined(atomic_ids(tv, 0), "|"@));
    while i < u.types.len()
        invariant
            i <= u.types.len(),
            tv == u@.types,
            tv == atomic_views(u.types@),
            out@ == old(out)@ + joined(atomic_ids(tv, i as nat), "|"@),
        decreases u.types.len() - i,
    {
        if i > 0 {
            out.append("|");
        }
        write_atomic(out, &u.types[i]);
        proof {
            assert(tv[i as int] == u.types@[i as int]@);
            let ids = atomic_ids(tv, (i + 1) as nat);
            assert(ids.drop_last() =~= atomic_ids(tv, i as nat));
            assert(ids.last() == atomic_id(tv[i as int]));
            assert(out@ =~= old(out)@ + joined(ids, "|"@));
        }
        i += 1;
    }
}

impl TAtomic {
    /// The text of the type.
    pub fn get_id(&self) -> (r: String)
        ensures
            r@ == atomic_id(self@),
    {
        let mut out = String::new();
        write_atomic(&mut out, self);
        assert(out@ =~= atomic_id(self@));
        out
    }
}

impl TUnion {
    /// The text of the union.
    pub fn get_id(&self) -> (r: String)
        ensures
            r@ == union_id(self@),
    {
        let mut out = String::new();
        write_union(&mut out, self);
        assert(out@ =~= union_id(self@));
        out
    }
}

impl Assertion {
    /// The key of the assertion: the text by which it is known.
    pub fn to_string(&self) -> (r: String)
        ensures
            r@ == assertion_key(self@),
    {
        let mut out = String::new();
        match self {
            Assertion::Truthy => out.append("!falsy"),
            Assertion::Falsy => out.append("falsy"),
            Assertion::IsType(t) => write_atomic(&mut out, t),
            Assertion::IsNotType(t) => {
                out.append("!");
                write_atomic(&mut out, t);
            },
            Assertion::IsEqual(t) => {
                out.append("=");
                write_atomic(&mut out, t);
            },
            Assertion::IsNotEqual(t) => {
                out.append("!=");
                write_atomic(&mut out, t);
            },
            Assertion::IsIsset => out.append("isset"),
            Assertion::IsNotIsset => out.append("!isset"),
            Assertion::IsEqualIsset => out.append("=isset"),
            Assertion::IsNotEqualIsset => out.append("!=isset"),
            Assertion::ArrayKeyExists => out.append("array-key-exists"),
            Assertion::ArrayKeyDoesNotExist => out.append("!array-key-exists"),
            Assertion::NonEmptyCountable(exact) => if *exact {
                out.append("=non-empty-countable")
            } else {
                out.append("non-empty-countable")
            },
            Assertion::EmptyCountable(exact) => if *exact {
                out.append("!=non-empty-countable")
            } else {
                out.append("!non-empty-countable")
            },
            Assertion::HasExactCount(n) => {
                out.append("has-exactly-");
                write_decimal(&mut out, *n as u64);
            },
            Assertion::DoesNotHaveExactCount(n) => {
                out.append("!has-exactly-");
                write_decimal(&mut out, *n as u64);
            },
        }
        assert(out@ =~= assertion_key(self@));
        out
    }
}

} // verus!
