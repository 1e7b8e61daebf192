//! The clause algebra: negation, disjunction, simplification and the
//! extraction of truths from formulas in conjunctive normal form.
use crate::assertion::{lemma_negation_differs, negates, negation, Alternatives, AssertionView};
use crate::clause::{
    alt_view, clone_possibilities, covers, lemma_del_wf, lemma_poss_map_wf, lemma_put_wf,
    new_clause, poss_map_wf, poss_view, poss_wf, same_clause, wedge_clause, with_var, without_var,
    Clause, ClauseView, PossView,
};
use crate::seq_set::{
    keep, lemma_keep_step, lemma_subset_len, lemma_with_all, same_items, with_all, without,
};
use crate::str_map::{
    del, has_key, index_of_key, keys_match, lemma_index_unique, lemma_map_vals,
    lemma_map_vals_del, lemma_map_vals_put, lemma_same_keys, put, value_of, StrMap,
};
use crate::text::{starts_with_char, Text};
use vstd::prelude::*;
use vstd::string::*;

verus! {

/// The values of a list of clauses.
pub open spec fn clause_views(s: Seq<Clause>) -> Seq<ClauseView> {
    s.map_values(|c: Clause| c@)
}

/// The values of a list of borrowed clauses.
pub open spec fn clause_ref_views(s: Seq<&Clause>) -> Seq<ClauseView> {
    s.map_values(|c: &Clause| c@)
}

/// Every clause of the list is valid.
pub open spec fn all_wf(s: Seq<ClauseView>) -> bool {
    forall|i: int| 0 <= i < s.len() ==> poss_wf((#[trigger] s[i]).possibilities)
}

/// The clause takes part in simplification.
pub open spec fn is_active(c: ClauseView) -> bool {
    c.reconcilable && !c.wedge
}

/// The clause is one literal.
pub open spec fn is_unit(c: ClauseView) -> bool {
    c.possibilities.len() == 1 && c.possibilities[0].1.len() == 1
}

/// The name stands for an anonymous expression: it starts with `*`.
pub open spec fn is_unknown_var(var: Text) -> bool {
    var.len() > 0 && var[0] == '*'
}

/// The clause speaks of anonymous expressions only: it names a variable,
/// and every variable that it names stands for an anonymous expression. A
/// clause without variables, such as a wedge, speaks of none and is not
/// among these.
pub open spec fn only_unknown_vars(c: ClauseView) -> bool {
    c.possibilities.len() > 0 && forall|i: int|
        0 <= i < c.possibilities.len() ==> is_unknown_var((#[trigger] c.possibilities[i]).0)
}

/// The formula is too long and too opaque to be worth simplifying: it has
/// more than 50 clauses, and each speaks of anonymous expressions only.
pub open spec fn too_opaque(cs: Seq<ClauseView>) -> bool {
    cs.len() > 50 && forall|i: int| 0 <= i < cs.len() ==> only_unknown_vars(#[trigger] cs[i])
}

/// Some clause of `s` is the same clause as `c`.
pub open spec fn has_clause(s: Seq<ClauseView>, c: ClauseView) -> bool {
    exists|j: int| 0 <= j < s.len() && same_clause(#[trigger] s[j], c)
}

/// The clauses of `s`, each once, the first of several same clauses kept.
pub open spec fn dedup(s: Seq<ClauseView>) -> Seq<ClauseView>
    decreases s.len(),
{
    if s.len() == 0 {
        s
    } else {
        let d = dedup(s.drop_last());
        if has_clause(d, s.last()) {
            d
        } else {
            d.push(s.last())
        }
    }
}

/// Two lists of alternatives are one literal each, one the negation of the
/// other.
pub open spec fn opposing(x: Seq<AssertionView>, y: Seq<AssertionView>) -> bool {
    x.len() == 1 && y.len() == 1 && negates(x[0], y[0])
}

/// Both possibilities name the same variables.
pub open spec fn same_vars(a: PossView, b: PossView) -> bool {
    a.len() == b.len() && forall|j: int| 0 <= j < a.len() ==> (#[trigger] a[j]).0 == b[j].0
}

/// `a` and `b` name the same variables, oppose each other at position `i`
/// and offer the same alternatives everywhere else.
pub open spec fn resolves_at(a: PossView, b: PossView, i: int) -> bool {
    &&& same_vars(a, b)
    &&& 0 <= i < a.len()
    &&& opposing(a[i].1, b[i].1)
    &&& forall|j: int| 0 <= j < a.len() && j != i ==> same_items((#[trigger] a[j]).1, b[j].1)
}

/// Resolution applies to the pair: from `(L or X) and (not L or X)` follows
/// `X`, so the literal may leave `a`.
pub open spec fn resolves(a: ClauseView, b: ClauseView) -> bool {
    &&& is_active(a)
    &&& !is_unit(a)
    &&& is_active(b)
    &&& !same_clause(a, b)
    &&& exists|i: int| resolves_at(a.possibilities, b.possibilities, i)
}

/// The position of the literal that resolution takes out of `a`.
pub open spec fn resolving_index(a: ClauseView, b: ClauseView) -> int {
    choose|i: int| resolves_at(a.possibilities, b.possibilities, i)
}

/// The unit clause `a` refutes one alternative of `b`.
pub open spec fn propagates(a: ClauseView, b: ClauseView) -> bool {
    &&& is_active(a)
    &&& is_unit(a)
    &&& is_active(b)
    &&& !same_clause(a, b)
    &&& has_key(b.possibilities, a.possibilities[0].0)
    &&& value_of(b.possibilities, a.possibilities[0].0).contains(
        negation(a.possibilities[0].1[0]),
    )
}

/// What is left of `b` once the unit clause `a` has refuted one of its
/// alternatives: the variable goes when no alternative is left for it.
pub open spec fn propagated(a: ClauseView, b: ClauseView) -> Option<ClauseView> {
    let var = a.possibilities[0].0;
    let rest = without(value_of(b.possibilities, var), negation(a.possibilities[0].1[0]));
    if rest.len() == 0 {
        without_var(b, var)
    } else {
        Some(with_var(b, var, rest))
    }
}

/// What resolution with `b` leaves of `a`: `a` without the literal on
/// which the two oppose each other; none where resolution does not apply.
pub open spec fn resolvent(a: ClauseView, b: ClauseView) -> Option<ClauseView> {
    if resolves(a, b) {
        without_var(a, a.possibilities[resolving_index(a, b)].0)
    } else {
        None
    }
}

/// Resolution with some clause of `u` shortens `c`.
pub open spec fn resolved(u: Seq<ClauseView>, c: ClauseView) -> bool {
    exists|j: int| 0 <= j < u.len() && resolves(c, #[trigger] u[j])
}

/// Some unit clause of `u` refutes an alternative of `c`.
pub open spec fn refuted(u: Seq<ClauseView>, c: ClauseView) -> bool {
    exists|j: int| 0 <= j < u.len() && propagates(#[trigger] u[j], c)
}

/// `c` is replaced: resolution with some clause of `u` shortens it, or a
/// unit clause of `u` refutes one of its alternatives.
pub open spec fn replaced(u: Seq<ClauseView>, c: ClauseView) -> bool {
    resolved(u, c) || refuted(u, c)
}

/// The clauses of `u` that are not replaced.
pub open spec fn not_replaced(u: Seq<ClauseView>) -> spec_fn(ClauseView) -> bool {
    |c: ClauseView| !replaced(u, c)
}

/// The list of an optional clause.
pub open spec fn opt_seq(o: Option<ClauseView>) -> Seq<ClauseView> {
    match o {
        Some(c) => seq![c],
        None => Seq::empty(),
    }
}

/// What resolution with each of the first `n` clauses of `u` leaves of
/// `a`.
pub open spec fn resolvents(u: Seq<ClauseView>, a: ClauseView, n: nat) -> Seq<ClauseView>
    decreases n,
{
    if n == 0 {
        Seq::empty()
    } else {
        resolvents(u, a, (n - 1) as nat) + opt_seq(resolvent(a, u[n - 1]))
    }
}

/// What is left of `c` once the first `n` clauses of `u` have acted on it
/// as unit clauses, one after the other, each on what the earlier ones
/// left; none once no variable is left.
pub open spec fn refuted_by(u: Seq<ClauseView>, c: ClauseView, n: nat) -> Option<ClauseView>
    decreases n,
{
    if n == 0 {
        Some(c)
    } else {
        match refuted_by(u, c, (n - 1) as nat) {
            None => None,
            Some(x) => if propagates(u[n - 1], x) {
                propagated(u[n - 1], x)
            } else {
                Some(x)
            },
        }
    }
}

/// The clauses that take the place of `c`: what resolution with each
/// clause of `u` leaves of it, and, where unit clauses of `u` refute
/// alternatives of it, the one clause that all of them together leave.
pub open spec fn successors(u: Seq<ClauseView>, c: ClauseView) -> Seq<ClauseView> {
    resolvents(u, c, u.len()) + if refuted(u, c) {
        opt_seq(refuted_by(u, c, u.len()))
    } else {
        Seq::empty()
    }
}

/// The clauses that take the place of the first `m` clauses of `u`.
pub open spec fn all_successors(u: Seq<ClauseView>, m: nat) -> Seq<ClauseView>
    decreases m,
{
    if m == 0 {
        Seq::empty()
    } else {
        all_successors(u, (m - 1) as nat) + successors(u, u[m - 1])
    }
}

/// `c` is redundant: it holds whenever some other active clause of `u` does.
pub open spec fn redundant(u: Seq<ClauseView>, c: ClauseView) -> bool {
    exists|j: int|
        0 <= j < u.len() && !same_clause(c, #[trigger] u[j]) && is_active(u[j]) && !c.wedge
            && covers(c, u[j])
}

/// The clauses of `u` that are not redundant.
pub open spec fn not_redundant(u: Seq<ClauseView>) -> spec_fn(ClauseView) -> bool {
    |c: ClauseView| !redundant(u, c)
}

/// Both clauses name `var`, each with one literal, one the negation of
/// the other.
pub open spec fn opposing_var(a: PossView, b: PossView, var: Text) -> bool {
    has_key(a, var) && has_key(b, var) && opposing(value_of(a, var), value_of(b, var))
}

/// The two clauses oppose each other on `var` and on no other variable.
pub open spec fn sole_opposing_var(a: PossView, b: PossView, var: Text) -> bool {
    opposing_var(a, b, var) && forall|w: Text| opposing_var(a, b, w) ==> w == var
}

/// The possibilities of `p` and `q` together: a variable of both gets the
/// alternatives of both.
pub open spec fn merged(p: PossView, q: PossView) -> PossView
    decreases q.len(),
{
    if q.len() == 0 {
        p
    } else {
        let m = merged(p, q.drop_last());
        let var = q.last().0;
        let old_alts = if has_key(m, var) {
            value_of(m, var)
        } else {
            Seq::empty()
        };
        put(m, var, with_all(old_alts, q.last().1))
    }
}

/// The consensus of two clauses that oppose each other on exactly one
/// variable: all their other literals together. From `(A or X)` and
/// `(not A or Y)` follows `(X or Y)`.
pub open spec fn consensus(a: ClauseView, b: ClauseView) -> Option<ClauseView> {
    if exists|v: Text| sole_opposing_var(a.possibilities, b.possibilities, v) {
        let v = choose|v: Text| sole_opposing_var(a.possibilities, b.possibilities, v);
        Some(
            new_clause(
                merged(del(a.possibilities, v), del(b.possibilities, v)),
                a.creating_conditional_id,
                a.creating_object_id,
                None,
                None,
                None,
                None,
            ),
        )
    } else {
        None
    }
}

/// `c` is the consensus of two different clauses of `s`.
pub open spec fn implied(s: Seq<ClauseView>, c: ClauseView) -> bool {
    exists|i: int, j: int|
        0 <= i < s.len() && 0 <= j < s.len() && !same_clause(#[trigger] s[i], #[trigger] s[j])
            && consensus(s[i], s[j]) is Some && same_clause(consensus(s[i], s[j])->0, c)
}

/// The clauses of `s` that are not the consensus of two others.
pub open spec fn not_implied(s: Seq<ClauseView>) -> spec_fn(ClauseView) -> bool {
    |c: ClauseView| !implied(s, c)
}

/// The formula after the reduction passes: the clauses that are not
/// replaced, then what takes the place of those that are, each clause
/// once.
pub open spec fn reduced(u: Seq<ClauseView>) -> Seq<ClauseView> {
    dedup(keep(u, not_replaced(u)) + all_successors(u, u.len()))
}

/// The formula without its redundant clauses.
pub open spec fn pruned(u: Seq<ClauseView>) -> Seq<ClauseView> {
    keep(u, not_redundant(u))
}

/// The formula without the clauses that two others imply; formulas of
/// fewer than 3 or more than 255 clauses are left as they are.
pub open spec fn without_implied(s: Seq<ClauseView>) -> Seq<ClauseView> {
    if 2 < s.len() < 256 {
        keep(s, not_implied(s))
    } else {
        s
    }
}

/// The simplified formula.
pub open spec fn simplified(cs: Seq<ClauseView>) -> Seq<ClauseView> {
    if too_opaque(cs) {
        cs
    } else {
        without_implied(pruned(reduced(dedup(cs))))
    }
}

/// Opposing alternatives are never the same alternatives.
pub proof fn lemma_opposing_differ(x: Seq<AssertionView>, y: Seq<AssertionView>)
    requires
        opposing(x, y),
    ensures
        !same_items(x, y),
{
    lemma_negation_differs(y[0]);
    if same_items(x, y) {
        assert(y.contains(x[0]));
        let i = y.index_of(x[0]);
        assert(i == 0);
    }
}

/// Resolution finds at most one literal to take out.
pub proof fn lemma_resolving_index(a: PossView, b: PossView, i: int)
    requires
        resolves_at(a, b, i),
    ensures
        forall|k: int| resolves_at(a, b, k) ==> k == i,
{
    assert forall|k: int| resolves_at(a, b, k) implies k == i by {
        if k != i {
            assert(same_items(a[i].1, b[i].1));
            lemma_opposing_differ(a[i].1, b[i].1);
        }
    }
}

/// Resolution never takes the last literal of a clause: the clause that
/// it shortens has a second variable.
pub proof fn lemma_resolution_leaves_a_clause(a: ClauseView, b: ClauseView)
    requires
        poss_wf(a.possibilities),
        resolves(a, b),
    ensures
        resolvent(a, b) is Some,
{
    let i = resolving_index(a, b);
    let p = a.possibilities;
    assert(resolves_at(p, b.possibilities, i));
    lemma_index_unique(p, i);
    crate::str_map::lemma_del(p, p[i].0);
}

/// True when the clause is one literal.
fn is_simple(c: &Clause) -> (r: bool)
    ensures
        r == is_unit(c@),
{
    if c.possibilities.len() != 1 {
        return false;
    }
    let alts = c.possibilities.value_at(0);
    assert(c@.possibilities[0].1 == alts@);
    alts.len() == 1
}

/// True when both lists offer the same alternatives.
fn same_alternatives(x: &Alternatives, y: &Alternatives) -> (r: bool)
    requires
        x.wf(),
        y.wf(),
    ensures
        r == same_items(x@, y@),
{
    if x.len() != y.len() {
        proof {
            if same_items(x@, y@) {
                lemma_subset_len(x@, y@);
                lemma_subset_len(y@, x@);
            }
        }
        return false;
    }
    let r = x.is_subset_of(y);
    proof {
        if r {
            lemma_subset_len(x@, y@);
        }
    }
    r
}

/// The position of the one literal on which the two clauses oppose each
/// other while they agree on every other variable.
fn resolving_var(a: &Clause, b: &Clause) -> (r: Option<usize>)
    requires
        a.wf(),
        b.wf(),
    ensures
        match r {
            Some(i) => resolves_at(a@.possibilities, b@.possibilities, i as int),
            None => forall|i: int| !resolves_at(a@.possibilities, b@.possibilities, i),
        },
{
    proof {
        lemma_poss_map_wf(a.possibilities);
        lemma_poss_map_wf(b.possibilities);
        lemma_map_vals(a.possibilities.entries(), alt_view());
        lemma_map_vals(b.possibilities.entries(), alt_view());
    }
    let ghost pa = a@.possibilities;
    let ghost pb = b@.possibilities;
    if !keys_match(&a.possibilities, &b.possibilities) {
        proof {
            if same_vars(pa, pb) {
                assert forall|k: Text| has_key(pa, k) == has_key(pb, k) by {
                    if has_key(pa, k) {
                        let i = index_of_key(pa, k);
                        assert(pb[i].0 == k);
                    }
                    if has_key(pb, k) {
                        let i = index_of_key(pb, k);
                        assert(pa[i].0 == k);
                    }
                }
            }
        }
        return None;
    }
    proof {
        lemma_same_keys(a.possibilities.entries(), b.possibilities.entries());
        assert forall|j: int| 0 <= j < pa.len() implies (#[trigger] pa[j]).0 == pb[j].0 by {
            assert(a.possibilities.entries()[j].0 == b.possibilities.entries()[j].0);
        }
    }
    let n = a.possibilities.len();
    let mut found: Option<usize> = None;
    let mut i: usize = 0;
    while i < n
        invariant
            i <= n,
            n == pa.len(),
            pa == a@.possibilities,
            pb == b@.possibilities,
            poss_map_wf(a.possibilities),
            poss_map_wf(b.possibilities),
            same_vars(pa, pb),
            match found {
                None => forall|j: int| 0 <= j < i ==> same_items((#[trigger] pa[j]).1, pb[j].1),
                Some(f) => f < i && opposing(pa[f as int].1, pb[f as int].1) && forall|j: int|
                    0 <= j < i && j != f ==> same_items((#[trigger] pa[j]).1, pb[j].1),
            },
        decreases n - i,
    {
        let x = a.possibilities.value_at(i);
        let y = b.possibilities.value_at(i);
        assert(pa[i as int].1 == x@);
        assert(pb[i as int].1 == y@);
        assert(a.possibilities.entries()[i as int].1.wf());
        assert(b.possibilities.entries()[i as int].1.wf());
        if !same_alternatives(x, y) {
            if found.is_none() && x.len() == 1 && y.len() == 1 && x.get(0).is_negation_of(y.get(0)) {
                found = Some(i);
            } else {
                proof {
                    assert forall|k: int| !resolves_at(pa, pb, k) by {
                        if resolves_at(pa, pb, k) {
                            if k == i {
                                let f = found->0 as int;
                                assert(same_items(pa[f].1, pb[f].1));
                                lemma_opposing_differ(pa[f].1, pb[f].1);
                            } else {
                                assert(same_items(pa[i as int].1, pb[i as int].1));
                            }
                        }
                    }
                }
                return None;
            }
        }
        i += 1;
    }
    proof {
        if found.is_none() {
            assert forall|k: int| !resolves_at(pa, pb, k) by {
                if resolves_at(pa, pb, k) {
                    assert(same_items(pa[k].1, pb[k].1));
                    lemma_opposing_differ(pa[k].1, pb[k].1);
                }
            }
        }
    }
    found
}

/// The position of the literal that resolution with `b` takes out of `a`.
fn resolves_with(a: &Clause, b: &Clause) -> (r: Option<usize>)
    requires
        a.wf(),
        b.wf(),
    ensures
        r.is_some() == resolves(a@, b@),
        r.is_some() ==> r.unwrap() == resolving_index(a@, b@) && r.unwrap()
            < a@.possibilities.len(),
{
    if !a.reconcilable || a.wedge || !b.reconcilable || b.wedge {
        return None;
    }
    if is_simple(a) || a.same_as(b) {
        return None;
    }
    let r = resolving_var(a, b);
    proof {
        if r.is_some() {
            lemma_resolving_index(a@.possibilities, b@.possibilities, r.unwrap() as int);
        }
    }
    r
}

/// True when the unit clause `a` refutes one alternative of `b`.
fn propagates_to(a: &Clause, b: &Clause) -> (r: bool)
    requires
        a.wf(),
        b.wf(),
    ensures
        r == propagates(a@, b@),
{
    if !a.reconcilable || a.wedge || !b.reconcilable || b.wedge {
        return false;
    }
    if !is_simple(a) || a.same_as(b) {
        return false;
    }
    proof {
        lemma_poss_map_wf(b.possibilities);
        lemma_map_vals(b.possibilities.entries(), alt_view());
    }
    let var = a.possibilities.key_at(0);
    let only = a.possibilities.value_at(0).get(0);
    assert(a@.possibilities[0].1 == a.possibilities.entries()[0].1@);
    let negated = only.get_negation();
    match b.possibilities.get(var.as_str()) {
        None => false,
        Some(alts) => {
            assert(alts@ == value_of(b@.possibilities, var@));
            alts.contains(&negated)
        },
    }
}

/// What is left of `b` once the unit clause `a` has refuted one of its
/// alternatives.
fn propagate(a: &Clause, b: &Clause) -> (r: Option<Clause>)
    requires
        a.wf(),
        b.wf(),
        propagates(a@, b@),
    ensures
        match r {
            Some(c) => propagated(a@, b@) == Some(c@) && c.wf(),
            None => propagated(a@, b@) is None,
        },
{
    proof {
        lemma_poss_map_wf(b.possibilities);
        lemma_map_vals(b.possibilities.entries(), alt_view());
    }
    let var = a.possibilities.key_at(0);
    let only = a.possibilities.value_at(0).get(0);
    assert(a@.possibilities[0].1 == a.possibilities.entries()[0].1@);
    let negated = only.get_negation();
    let alts = b.possibilities.get(var.as_str()).unwrap();
    assert(alts@ == value_of(b@.possibilities, var@));
    proof {
        let i = index_of_key(b.possibilities.entries(), var@);
        lemma_index_unique(b.possibilities.entries(), i);
        assert(b.possibilities.entries()[i].1.wf());
    }
    let mut rest = alts.clone();
    rest.remove(&negated);
    if rest.len() == 0 {
        b.remove_possibilities(var.as_str())
    } else {
        Some(b.add_possibility(var.clone(), rest))
    }
}

/// What resolution with `b` leaves of `a`.
fn resolvent_of(a: &Clause, b: &Clause) -> (r: Option<Clause>)
    requires
        a.wf(),
        b.wf(),
    ensures
        match r {
            Some(c) => resolvent(a@, b@) == Some(c@) && c.wf(),
            None => resolvent(a@, b@) is None,
        },
{
    match resolves_with(a, b) {
        Some(i) => {
            let var = a.possibilities.key_at(i);
            assert(a@.possibilities[i as int].0 == var@);
            a.remove_possibilities(var.as_str())
        },
        None => None,
    }
}

/// What the unit clauses of `u` leave of `c`, acting one after the other.
/// The first result says whether any of them refutes an alternative of
/// `c`; only then does the second hold what is left.
fn refute(u: &Vec<Clause>, c: &Clause) -> (r: (bool, Option<Clause>))
    requires
        all_wf(clause_views(u@)),
        c.wf(),
    ensures
        r.0 == refuted(clause_views(u@), c@),
        r.0 ==> match r.1 {
            Some(x) => refuted_by(clause_views(u@), c@, u@.len()) == Some(x@) && x.wf(),
            None => refuted_by(clause_views(u@), c@, u@.len()) is None,
        },
{
    let ghost uv = clause_views(u@);
    let mut acted = false;
    let mut current: Option<Clause> = None;
    let mut j: usize = 0;
    while j < u.len()
        invariant
            j <= u.len(),
            uv == clause_views(u@),
            all_wf(uv),
            c.wf(),
            !acted ==> refuted_by(uv, c@, j as nat) == Some(c@) && forall|k: int|
                0 <= k < j ==> !propagates(#[trigger] uv[k], c@),
            acted ==> (exists|k: int| 0 <= k < j && propagates(#[trigger] uv[k], c@)) && match current {
                Some(x) => refuted_by(uv, c@, j as nat) == Some(x@) && x.wf(),
                None => refuted_by(uv, c@, j as nat) is None,
            },
        decreases u.len() - j,
    {
        let unit = &u[j];
        assert(uv[j as int] == unit@);
        if !acted {
            if propagates_to(unit, c) {
                current = propagate(unit, c);
                acted = true;
            }
        } else {
            let next = match &current {
                Some(x) => {
                    if propagates_to(unit, x) {
                        Some(propagate(unit, x))
                    } else {
                        None
                    }
                },
                None => None,
            };
            match next {
                Some(left) => {
                    current = left;
                },
                None => {},
            }
        }
        j += 1;
    }
    (acted, current)
}

/// True when some clause of `v` is the same clause as `c`.
fn find_clause(v: &Vec<Clause>, c: &Clause) -> (r: bool)
    requires
        all_wf(clause_views(v@)),
        c.wf(),
    ensures
        r == has_clause(clause_views(v@), c@),
{
    let mut j: usize = 0;
    while j < v.len()
        invariant
            j <= v.len(),
            all_wf(clause_views(v@)),
            c.wf(),
            forall|k: int| 0 <= k < j ==> !same_clause(#[trigger] clause_views(v@)[k], c@),
        decreases v.len() - j,
    {
        assert(clause_views(v@)[j as int] == v@[j as int]@);
        if v[j].same_as(c) {
            return true;
        }
        j += 1;
    }
    false
}

/// Adds `c` unless the same clause is there already.
fn push_unique(v: &mut Vec<Clause>, c: Clause)
    requires
        all_wf(clause_views(old(v)@)),
        c.wf(),
    ensures
        all_wf(clause_views(final(v)@)),
        clause_views(final(v)@) == if has_clause(clause_views(old(v)@), c@) {
            clause_views(old(v)@)
        } else {
            clause_views(old(v)@).push(c@)
        },
{
    if !find_clause(v, &c) {
        let ghost before = clause_views(v@);
        v.push(c);
        assert(clause_views(v@) =~= before.push(c@));
        assert forall|i: int| 0 <= i < clause_views(v@).len() implies poss_wf(
            (#[trigger] clause_views(v@)[i]).possibilities,
        ) by {
            if i < before.len() {
                assert(clause_views(v@)[i] == before[i]);
            }
        }
    }
}

/// What `dedup` makes of a list that is one clause longer.
pub proof fn lemma_dedup_push(s: Seq<ClauseView>, c: ClauseView)
    ensures
        dedup(s.push(c)) == if has_clause(dedup(s), c) {
            dedup(s)
        } else {
            dedup(s).push(c)
        },
{
    assert(s.push(c).drop_last() =~= s);
}

/// True when some clause of `u` replaces `c`.
fn is_replaced(u: &Vec<Clause>, c: &Clause) -> (r: bool)
    requires
        all_wf(clause_views(u@)),
        c.wf(),
    ensures
        r == replaced(clause_views(u@), c@),
{
    let ghost uv = clause_views(u@);
    let mut j: usize = 0;
    while j < u.len()
        invariant
            j <= u.len(),
            uv == clause_views(u@),
            all_wf(uv),
            c.wf(),
            forall|k: int| 0 <= k < j ==> !resolves(c@, #[trigger] uv[k]),
            forall|k: int| 0 <= k < j ==> !propagates(#[trigger] uv[k], c@),
        decreases u.len() - j,
    {
        assert(uv[j as int] == u@[j as int]@);
        if resolves_with(c, &u[j]).is_some() || propagates_to(&u[j], c) {
            return true;
        }
        j += 1;
    }
    false
}

/// The clauses of the formula, each once.
fn dedup_clauses(clauses: &Vec<&Clause>) -> (r: Vec<Clause>)
    requires
        all_wf(clause_ref_views(clauses@)),
    ensures
        clause_views(r@) == dedup(clause_ref_views(clauses@)),
        all_wf(clause_views(r@)),
{
    let ghost cv = clause_ref_views(clauses@);
    let mut r: Vec<Clause> = Vec::new();
    let mut i: usize = 0;
    assert(cv.take(0) =~= Seq::<ClauseView>::empty());
    assert(clause_views(r@) =~= dedup(cv.take(0)));
    while i < clauses.len()
        invariant
            i <= clauses.len(),
            cv == clause_ref_views(clauses@),
            all_wf(cv),
            all_wf(clause_views(r@)),
            clause_views(r@) == dedup(cv.take(i as int)),
        decreases clauses.len() - i,
    {
        assert(cv[i as int] == clauses@[i as int]@);
        proof {
            lemma_dedup_push(cv.take(i as int), cv[i as int]);
            assert(cv.take(i as int).push(cv[i as int]) =~= cv.take(i as int + 1));
        }
        push_unique(&mut r, clauses[i].clone());
        i += 1;
    }
    assert(cv.take(i as int) =~= cv);
    r
}

/// The formula after the reduction passes.
fn reduce_pass(u: &Vec<Clause>) -> (r: Vec<Clause>)
    requires
        all_wf(clause_views(u@)),
    ensures
        clause_views(r@) == reduced(clause_views(u@)),
        all_wf(clause_views(r@)),
{
    let ghost uv = clause_views(u@);
    let ghost f = not_replaced(uv);
    let mut r: Vec<Clause> = Vec::new();
    let mut i: usize = 0;
    assert(uv.take(0) =~= Seq::<ClauseView>::empty());
    assert(clause_views(r@) =~= dedup(keep(uv.take(0), f)));
    while i < u.len()
        invariant
            i <= u.len(),
            uv == clause_views(u@),
            f == not_replaced(uv),
            all_wf(uv),
            all_wf(clause_views(r@)),
            clause_views(r@) == dedup(keep(uv.take(i as int), f)),
        decreases u.len() - i,
    {
        assert(uv[i as int] == u@[i as int]@);
        proof {
            lemma_keep_step(uv, f, i as int);
            lemma_dedup_push(keep(uv.take(i as int), f), uv[i as int]);
        }
        if !is_replaced(u, &u[i]) {
            push_unique(&mut r, u[i].clone());
        }
        i += 1;
    }
    assert(uv.take(i as int) =~= uv);
    let ghost kept = keep(uv, f);
    let mut m: usize = 0;
    assert(kept + all_successors(uv, 0) =~= kept);
    while m < u.len()
        invariant
            m <= u.len(),
            uv == clause_views(u@),
            all_wf(uv),
            all_wf(clause_views(r@)),
            clause_views(r@) == dedup(kept + all_successors(uv, m as nat)),
        decreases u.len() - m,
    {
        let a = &u[m];
        assert(uv[m as int] == a@);
        let ghost base = kept + all_successors(uv, m as nat);
        let mut n: usize = 0;
        assert(base + resolvents(uv, a@, 0) =~= base);
        while n < u.len()
            invariant
                n <= u.len(),
                uv == clause_views(u@),
                all_wf(uv),
                a.wf(),
                all_wf(clause_views(r@)),
                clause_views(r@) == dedup(base + resolvents(uv, a@, n as nat)),
            decreases u.len() - n,
        {
            assert(uv[n as int] == u@[n as int]@);
            let ghost sofar = base + resolvents(uv, a@, n as nat);
            match resolvent_of(a, &u[n]) {
                Some(c) => {
                    proof {
                        lemma_dedup_push(sofar, c@);
                        assert(sofar.push(c@) =~= base + resolvents(uv, a@, (n + 1) as nat));
                    }
                    push_unique(&mut r, c);
                },
                None => {
                    assert(sofar =~= base + resolvents(uv, a@, (n + 1) as nat));
                },
            }
            n += 1;
        }
        let ghost resolved_part = base + resolvents(uv, a@, u@.len());
        let (acted, left) = refute(u, a);
        let shortened = if acted {
            left
        } else {
            None
        };
        match shortened {
            Some(c) => {
                proof {
                    lemma_dedup_push(resolved_part, c@);
                    assert(resolved_part.push(c@) =~= kept + all_successors(uv, (m + 1) as nat));
                }
                push_unique(&mut r, c);
            },
            None => {
                assert(resolved_part =~= kept + all_successors(uv, (m + 1) as nat));
            },
        }
        m += 1;
    }
    r
}

/// True when `c` holds whenever some other active clause of `u` does.
fn is_redundant(u: &Vec<Clause>, c: &Clause) -> (r: bool)
    requires
        all_wf(clause_views(u@)),
        c.wf(),
    ensures
        r == redundant(clause_views(u@), c@),
{
    let ghost uv = clause_views(u@);
    if c.wedge {
        return false;
    }
    let mut j: usize = 0;
    while j < u.len()
        invariant
            j <= u.len(),
            uv == clause_views(u@),
            all_wf(uv),
            c.wf(),
            !c.wedge,
            forall|k: int|
                0 <= k < j ==> !(!same_clause(c@, #[trigger] uv[k]) && is_active(uv[k]) && covers(
                    c@,
                    uv[k],
                )),
        decreases u.len() - j,
    {
        let b = &u[j];
        assert(uv[j as int] == b@);
        if b.reconcilable && !b.wedge && !c.same_as(b) && c.contains(b) {
            return true;
        }
        j += 1;
    }
    false
}

/// The formula without its redundant clauses.
fn prune_pass(u: &Vec<Clause>) -> (r: Vec<Clause>)
    requires
        all_wf(clause_views(u@)),
    ensures
        clause_views(r@) == pruned(clause_views(u@)),
        all_wf(clause_views(r@)),
{
    let ghost uv = clause_views(u@);
    let ghost f = not_redundant(uv);
    let mut r: Vec<Clause> = Vec::new();
    let mut i: usize = 0;
    assert(uv.take(0) =~= Seq::<ClauseView>::empty());
    assert(clause_views(r@) =~= keep(uv.take(0), f));
    while i < u.len()
        invariant
            i <= u.len(),
            uv == clause_views(u@),
            f == not_redundant(uv),
            all_wf(uv),
            all_wf(clause_views(r@)),
            clause_views(r@) == keep(uv.take(i as int), f),
        decreases u.len() - i,
    {
        assert(uv[i as int] == u@[i as int]@);
        proof {
            lemma_keep_step(uv, f, i as int);
        }
        if !is_redundant(u, &u[i]) {
            let ghost before = clause_views(r@);
            r.push(u[i].clone());
            assert(clause_views(r@) =~= before.push(uv[i as int]));
            assert forall|x: int| 0 <= x < clause_views(r@).len() implies poss_wf(
                (#[trigger] clause_views(r@)[x]).possibilities,
            ) by {
                if x < before.len() {
                    assert(clause_views(r@)[x] == before[x]);
                }
            }
        }
        i += 1;
    }
    assert(uv.take(i as int) =~= uv);
    r
}

/// Merging valid possibilities gives valid possibilities.
pub proof fn lemma_merged_wf(p: PossView, q: PossView)
    requires
        poss_wf(p),
    ensures
        poss_wf(merged(p, q)),
    decreases q.len(),
{
    if q.len() > 0 {
        lemma_merged_wf(p, q.drop_last());
        let m = merged(p, q.drop_last());
        let var = q.last().0;
        let old_alts = if has_key(m, var) {
            value_of(m, var)
        } else {
            Seq::empty()
        };
        if has_key(m, var) {
            let i = index_of_key(m, var);
            assert(m[i].1.no_duplicates());
        }
        lemma_with_all(old_alts, q.last().1);
        lemma_put_wf(m, var, with_all(old_alts, q.last().1));
    }
}

/// The possibilities of both maps together.
pub fn merge_possibilities(p: &StrMap<Alternatives>, q: &StrMap<Alternatives>) -> (r: StrMap<
    Alternatives,
>)
    requires
        poss_map_wf(*p),
    ensures
        poss_view(r.entries()) == merged(poss_view(p.entries()), poss_view(q.entries())),
        poss_map_wf(r),
{
    let ghost pv = poss_view(p.entries());
    let ghost qv = poss_view(q.entries());
    let mut r = clone_possibilities(p);
    proof {
        lemma_poss_map_wf(*p);
        lemma_poss_map_wf(r);
        assert(qv.take(0) =~= Seq::<(Text, Seq<AssertionView>)>::empty());
    }
    let mut i: usize = 0;
    while i < q.len()
        invariant
            i <= q.entries().len(),
            qv == poss_view(q.entries()),
            poss_wf(pv),
            poss_map_wf(r),
            poss_view(r.entries()) == merged(pv, qv.take(i as int)),
        decreases q.entries().len() - i,
    {
        let var = q.key_at(i);
        let alts = q.value_at(i);
        let ghost m = poss_view(r.entries());
        proof {
            lemma_poss_map_wf(r);
            lemma_map_vals(r.entries(), alt_view());
            assert(qv.take(i as int + 1).drop_last() =~= qv.take(i as int));
            assert(qv.take(i as int + 1).last() == qv[i as int]);
            assert(qv[i as int].0 == var@);
            assert(qv[i as int].1 == alts@);
            lemma_merged_wf(pv, qv.take(i as int + 1));
        }
        let mut all = match r.get(var.as_str()) {
            Some(x) => x.clone(),
            None => Alternatives::new(),
        };
        all.extend(alts);
        proof {
            lemma_map_vals_put(r.entries(), alt_view(), var@, all);
        }
        r.insert(var.clone(), all);
        proof {
            lemma_poss_map_wf(r);
        }
        i += 1;
    }
    assert(qv.take(i as int) =~= qv);
    r
}

/// The position in `a` of the one variable on which the two clauses
/// oppose each other.
fn sole_opposition(a: &Clause, b: &Clause) -> (r: Option<usize>)
    requires
        a.wf(),
        b.wf(),
    ensures
        match r {
            Some(i) => i < a@.possibilities.len() && sole_opposing_var(
                a@.possibilities,
                b@.possibilities,
                a@.possibilities[i as int].0,
            ),
            None => forall|v: Text| !sole_opposing_var(a@.possibilities, b@.possibilities, v),
        },
{
    let ghost pa = a@.possibilities;
    let ghost pb = b@.possibilities;
    proof {
        lemma_poss_map_wf(a.possibilities);
        lemma_poss_map_wf(b.possibilities);
        lemma_map_vals(a.possibilities.entries(), alt_view());
        lemma_map_vals(b.possibilities.entries(), alt_view());
    }
    let mut found: Option<usize> = None;
    let mut i: usize = 0;
    while i < a.possibilities.len()
        invariant
            i <= pa.len(),
            pa == a@.possibilities,
            pb == b@.possibilities,
            pa.len() == a.possibilities.entries().len(),
            poss_map_wf(a.possibilities),
            poss_map_wf(b.possibilities),
            poss_wf(pa),
            poss_wf(pb),
            match found {
                None => forall|j: int| 0 <= j < i ==> !opposing_var(pa, pb, (#[trigger] pa[j]).0),
                Some(f) => f < i && opposing_var(pa, pb, pa[f as int].0) && forall|j: int|
                    0 <= j < i && j != f ==> !opposing_var(pa, pb, (#[trigger] pa[j]).0),
            },
        decreases pa.len() - i,
    {
        let var = a.possibilities.key_at(i);
        let x = a.possibilities.value_at(i);
        proof {
            lemma_map_vals(b.possibilities.entries(), alt_view());
            lemma_index_unique(pa, i as int);
            assert(pa[i as int].0 == var@);
            assert(pa[i as int].1 == x@);
        }
        let opposed = match b.possibilities.get(var.as_str()) {
            None => false,
            Some(y) => {
                assert(y@ == value_of(pb, var@));
                x.len() == 1 && y.len() == 1 && x.get(0).is_negation_of(y.get(0))
            },
        };
        if opposed {
            if found.is_some() {
                proof {
                    let f = found->0 as int;
                    lemma_index_unique(pa, f);
                    assert(pa[f].0 != pa[i as int].0);
                }
                return None;
            }
            found = Some(i);
        }
        i += 1;
    }
    proof {
        match found {
            None => {
                assert forall|v: Text| !sole_opposing_var(pa, pb, v) by {
                    if opposing_var(pa, pb, v) {
                        let j = index_of_key(pa, v);
                        assert(pa[j].0 == v);
                    }
                }
            },
            Some(f) => {
                assert forall|w: Text| opposing_var(pa, pb, w) implies w == pa[f as int].0 by {
                    let j = index_of_key(pa, w);
                    assert(pa[j].0 == w);
                }
            },
        }
    }
    found
}

/// The consensus of two clauses that oppose each other on exactly one
/// variable.
fn consensus_of(a: &Clause, b: &Clause) -> (r: Option<Clause>)
    requires
        a.wf(),
        b.wf(),
    ensures
        match r {
            Some(c) => consensus(a@, b@) == Some(c@) && c.wf(),
            None => consensus(a@, b@) is None,
        },
{
    match sole_opposition(a, b) {
        None => None,
        Some(i) => {
            let var = a.possibilities.key_at(i);
            let ghost pa = a@.possibilities;
            let ghost pb = b@.possibilities;
            proof {
                assert(pa[i as int].0 == var@);
                let v = choose|v: Text| sole_opposing_var(pa, pb, v);
                assert(sole_opposing_var(pa, pb, var@));
                assert(v == var@);
                lemma_poss_map_wf(a.possibilities);
                lemma_poss_map_wf(b.possibilities);
            }
            let mut left = clone_possibilities(&a.possibilities);
            let mut right = clone_possibilities(&b.possibilities);
            proof {
                lemma_poss_map_wf(left);
                lemma_poss_map_wf(right);
                lemma_map_vals_del(left.entries(), alt_view(), var@);
                lemma_map_vals_del(right.entries(), alt_view(), var@);
                lemma_del_wf(pa, var@);
                lemma_del_wf(pb, var@);
            }
            left.remove(var.as_str());
            right.remove(var.as_str());
            proof {
                lemma_poss_map_wf(left);
                lemma_poss_map_wf(right);
            }
            let possibilities = merge_possibilities(&left, &right);
            proof {
                lemma_poss_map_wf(possibilities);
            }
            Some(
                Clause::new(
                    possibilities,
                    a.creating_conditional_id,
                    a.creating_object_id,
                    None,
                    None,
                    None,
                    None,
                ),
            )
        },
    }
}

/// The consensus of `a` with each of the first `n` clauses of `s` that is
/// another clause.
spec fn consensus_with(s: Seq<ClauseView>, a: ClauseView, n: nat) -> Seq<ClauseView>
    decreases n,
{
    if n == 0 {
        Seq::empty()
    } else {
        consensus_with(s, a, (n - 1) as nat) + opt_seq(
            if same_clause(a, s[n - 1]) {
                None
            } else {
                consensus(a, s[n - 1])
            },
        )
    }
}

/// The consensus of each of the first `m` clauses of `s` with each other
/// clause of `s`.
spec fn consensus_list(s: Seq<ClauseView>, m: nat) -> Seq<ClauseView>
    decreases m,
{
    if m == 0 {
        Seq::empty()
    } else {
        consensus_list(s, (m - 1) as nat) + consensus_with(s, s[m - 1], s.len())
    }
}

/// Which clauses are among the consensus clauses of `a` with the first
/// `n` clauses of `s`.
proof fn lemma_consensus_with(s: Seq<ClauseView>, a: ClauseView, n: nat, c: ClauseView)
    requires
        n <= s.len(),
    ensures
        has_clause(consensus_with(s, a, n), c) <==> exists|j: int|
            0 <= j < n && !same_clause(a, #[trigger] s[j]) && consensus(a, s[j]) is Some
                && same_clause(consensus(a, s[j])->0, c),
    decreases n,
{
    if n > 0 {
        lemma_consensus_with(s, a, (n - 1) as nat, c);
        let prev = consensus_with(s, a, (n - 1) as nat);
        let last = opt_seq(
            if same_clause(a, s[n - 1]) {
                None
            } else {
                consensus(a, s[n - 1])
            },
        );
        let all = consensus_with(s, a, n);
        if has_clause(all, c) {
            let x = choose|x: int| 0 <= x < all.len() && same_clause(#[trigger] all[x], c);
            if x < prev.len() {
                assert(prev[x] == all[x]);
                assert(has_clause(prev, c));
            } else {
                assert(all[x] == last[x - prev.len()]);
                assert(!same_clause(a, s[n - 1]) && consensus(a, s[n - 1]) is Some && same_clause(
                    consensus(a, s[n - 1])->0,
                    c,
                ));
            }
        }
        if exists|j: int|
            0 <= j < n && !same_clause(a, #[trigger] s[j]) && consensus(a, s[j]) is Some
                && same_clause(consensus(a, s[j])->0, c) {
            let j = choose|j: int|
                0 <= j < n && !same_clause(a, #[trigger] s[j]) && consensus(a, s[j]) is Some
                    && same_clause(consensus(a, s[j])->0, c);
            if j < n - 1 {
                assert(has_clause(prev, c));
                let x = choose|x: int| 0 <= x < prev.len() && same_clause(#[trigger] prev[x], c);
                assert(all[x] == prev[x]);
            } else {
                assert(all[prev.len() as int] == consensus(a, s[n - 1])->0);
            }
        }
    }
}

/// Which clauses are among the consensus clauses of the first `m` clauses
/// of `s`.
proof fn lemma_consensus_list(s: Seq<ClauseView>, m: nat, c: ClauseView)
    requires
        m <= s.len(),
    ensures
        has_clause(consensus_list(s, m), c) <==> exists|i: int, j: int|
            0 <= i < m && 0 <= j < s.len() && !same_clause(#[trigger] s[i], #[trigger] s[j])
                && consensus(s[i], s[j]) is Some && same_clause(consensus(s[i], s[j])->0, c),
    decreases m,
{
    if m > 0 {
        lemma_consensus_list(s, (m - 1) as nat, c);
        lemma_consensus_with(s, s[m - 1], s.len(), c);
        let prev = consensus_list(s, (m - 1) as nat);
        let last = consensus_with(s, s[m - 1], s.len());
        let all = consensus_list(s, m);
        if has_clause(all, c) {
            let x = choose|x: int| 0 <= x < all.len() && same_clause(#[trigger] all[x], c);
            if x < prev.len() {
                assert(prev[x] == all[x]);
                assert(has_clause(prev, c));
            } else {
                assert(all[x] == last[x - prev.len()]);
                assert(has_clause(last, c));
                let j = choose|j: int|
                    0 <= j < s.len() && !same_clause(s[m - 1], #[trigger] s[j]) && consensus(
                        s[m - 1],
                        s[j],
                    ) is Some && same_clause(consensus(s[m - 1], s[j])->0, c);
                assert(!same_clause(s[m - 1], s[j]));
            }
        }
        if exists|i: int, j: int|
            0 <= i < m && 0 <= j < s.len() && !same_clause(#[trigger] s[i], #[trigger] s[j])
                && consensus(s[i], s[j]) is Some && same_clause(consensus(s[i], s[j])->0, c) {
            let (i, j) = choose|i: int, j: int|
                0 <= i < m && 0 <= j < s.len() && !same_clause(#[trigger] s[i], #[trigger] s[j])
                    && consensus(s[i], s[j]) is Some && same_clause(consensus(s[i], s[j])->0, c);
            if i < m - 1 {
                assert(has_clause(prev, c));
                let x = choose|x: int| 0 <= x < prev.len() && same_clause(#[trigger] prev[x], c);
                assert(all[x] == prev[x]);
            } else {
                assert(has_clause(last, c));
                let x = choose|x: int| 0 <= x < last.len() && same_clause(#[trigger] last[x], c);
                assert(all[prev.len() + x] == last[x]);
            }
        }
    }
}

/// The consensus of each clause of `s` with each other clause of `s`.
fn collect_consensus(s: &Vec<Clause>) -> (r: Vec<Clause>)
    requires
        all_wf(clause_views(s@)),
    ensures
        clause_views(r@) == consensus_list(clause_views(s@), s@.len()),
        all_wf(clause_views(r@)),
{
    let ghost sv = clause_views(s@);
    let mut r: Vec<Clause> = Vec::new();
    let mut m: usize = 0;
    assert(clause_views(r@) =~= consensus_list(sv, 0));
    while m < s.len()
        invariant
            m <= s.len(),
            sv == clause_views(s@),
            all_wf(sv),
            all_wf(clause_views(r@)),
            clause_views(r@) == consensus_list(sv, m as nat),
        decreases s.len() - m,
    {
        let a = &s[m];
        assert(sv[m as int] == a@);
        let ghost base = clause_views(r@);
        let mut n: usize = 0;
        assert(base + consensus_with(sv, a@, 0) =~= base);
        while n < s.len()
            invariant
                n <= s.len(),
                sv == clause_views(s@),
                all_wf(sv),
                a.wf(),
                all_wf(clause_views(r@)),
                clause_views(r@) == base + consensus_with(sv, a@, n as nat),
            decreases s.len() - n,
        {
            let b = &s[n];
            assert(sv[n as int] == b@);
            let ghost before = clause_views(r@);
            let found = if a.same_as(b) {
                None
            } else {
                consensus_of(a, b)
            };
            match found {
                Some(c) => {
                    r.push(c);
                    assert(clause_views(r@) =~= before.push(c@));
                    assert(before.push(c@) =~= base + consensus_with(sv, a@, (n + 1) as nat));
                    assert forall|i: int| 0 <= i < clause_views(r@).len() implies poss_wf(
                        (#[trigger] clause_views(r@)[i]).possibilities,
                    ) by {
                        if i < before.len() {
                            assert(clause_views(r@)[i] == before[i]);
                        }
                    }
                },
                None => {
                    assert(before =~= base + consensus_with(sv, a@, (n + 1) as nat));
                },
            }
            n += 1;
        }
        m += 1;
    }
    r
}

/// The formula without the clauses that two others imply.
fn consensus_pass(s: Vec<Clause>) -> (r: Vec<Clause>)
    requires
        all_wf(clause_views(s@)),
    ensures
        clause_views(r@) == without_implied(clause_views(s@)),
        all_wf(clause_views(r@)),
{
    if !(s.len() > 2 && s.len() < 256) {
        return s;
    }
    let ghost sv = clause_views(s@);
    let ghost f = not_implied(sv);
    let implied_clauses = collect_consensus(&s);
    let mut r: Vec<Clause> = Vec::new();
    let mut i: usize = 0;
    assert(sv.take(0) =~= Seq::<ClauseView>::empty());
    assert(clause_views(r@) =~= keep(sv.take(0), f));
    while i < s.len()
        invariant
            i <= s.len(),
            sv == clause_views(s@),
            f == not_implied(sv),
            all_wf(sv),
            all_wf(clause_views(r@)),
            all_wf(clause_views(implied_clauses@)),
            clause_views(implied_clauses@) == consensus_list(sv, sv.len()),
            clause_views(r@) == keep(sv.take(i as int), f),
        decreases s.len() - i,
    {
        assert(sv[i as int] == s@[i as int]@);
        proof {
            lemma_keep_step(sv, f, i as int);
            lemma_consensus_list(sv, sv.len(), sv[i as int]);
        }
        if !find_clause(&implied_clauses, &s[i]) {
            let ghost before = clause_views(r@);
            r.push(s[i].clone());
            assert(clause_views(r@) =~= before.push(sv[i as int]));
            assert forall|x: int| 0 <= x < clause_views(r@).len() implies poss_wf(
                (#[trigger] clause_views(r@)[x]).possibilities,
            ) by {
                if x < before.len() {
                    assert(clause_views(r@)[x] == before[x]);
                }
            }
        }
        i += 1;
    }
    assert(sv.take(i as int) =~= sv);
    r
}

/// True when the clause speaks of anonymous expressions only.
fn names_only_unknown(c: &Clause) -> (r: bool)
    ensures
        r == only_unknown_vars(c@),
{
    if c.possibilities.len() == 0 {
        return false;
    }
    let mut i: usize = 0;
    while i < c.possibilities.len()
        invariant
            i <= c.possibilities.entries().len(),
            c@.possibilities.len() == c.possibilities.entries().len(),
            c@.possibilities.len() > 0,
            forall|j: int| 0 <= j < i ==> is_unknown_var((#[trigger] c@.possibilities[j]).0),
        decreases c.possibilities.entries().len() - i,
    {
        let key = c.possibilities.key_at(i);
        assert(c@.possibilities[i as int].0 == key@);
        if !starts_with_char(key.as_str(), '*') {
            return false;
        }
        i += 1;
    }
    true
}

/// True when the formula is too long and too opaque to be worth
/// simplifying.
fn is_too_opaque(clauses: &Vec<&Clause>) -> (r: bool)
    ensures
        r == too_opaque(clause_ref_views(clauses@)),
{
    if clauses.len() <= 50 {
        return false;
    }
    let ghost cv = clause_ref_views(clauses@);
    let mut i: usize = 0;
    while i < clauses.len()
        invariant
            i <= clauses.len(),
            cv == clause_ref_views(clauses@),
            forall|j: int| 0 <= j < i ==> only_unknown_vars(#[trigger] cv[j]),
        decreases clauses.len() - i,
    {
        assert(cv[i as int] == clauses@[i as int]@);
        if !names_only_unknown(clauses[i]) {
            return false;
        }
        i += 1;
    }
    true
}

/// Simplifies a formula in conjunctive normal form: drops repeated
/// clauses, resolves, lets the unit clauses refute alternatives of the
/// other clauses one after the other, drops redundant clauses and those
/// that two others imply.
///
/// A formula of more than 50 clauses comes back unchanged, repeats
/// included, where every clause names at least one variable and names
/// anonymous expressions only. One clause that names a variable of the
/// program, or no variable at all, as a wedge does, is enough for the
/// formula to be simplified.
pub fn simplify_cnf(clauses: Vec<&Clause>) -> (r: Vec<Clause>)
    requires
        all_wf(clause_ref_views(clauses@)),
    ensures
        clause_views(r@) == simplified(clause_ref_views(clauses@)),
        all_wf(clause_views(r@)),
{
    let ghost cv = clause_ref_views(clauses@);
    if is_too_opaque(&clauses) {
        let mut r: Vec<Clause> = Vec::new();
        let mut i: usize = 0;
        while i < clauses.len()
            invariant
                i <= clauses.len(),
                cv == clause_ref_views(clauses@),
                r.len() == i,
                forall|j: int| 0 <= j < i ==> r@[j]@ == cv[j],
            decreases clauses.len() - i,
        {
            assert(cv[i as int] == clauses@[i as int]@);
            r.push(clauses[i].clone());
            i += 1;
        }
        assert(clause_views(r@) =~= cv);
        return r;
    }
    let unique = dedup_clauses(&clauses);
    let reduced = reduce_pass(&unique);
    let pruned = prune_pass(&reduced);
    consensus_pass(pruned)
}

/// Some variable offers exactly two alternatives of which one is the
/// negation of the other, so the clause always holds.
pub open spec fn tautology(p: PossView) -> bool {
    exists|i: int|
        0 <= i < p.len() && (#[trigger] p[i]).1.len() == 2 && negates(p[i].1[0], p[i].1[1])
}

/// The clause that says "`l` or `r`": none for two wedges and none where
/// the result would always hold.
pub open spec fn disjunction(
    l: ClauseView,
    r: ClauseView,
    id: (usize, usize),
    many: bool,
) -> Option<ClauseView> {
    let p = merged(l.possibilities, r.possibilities);
    if l.wedge && r.wedge {
        None
    } else if tautology(p) {
        None
    } else {
        let origin = if r.creating_conditional_id == l.creating_conditional_id {
            r.creating_conditional_id
        } else {
            id
        };
        Some(
            new_clause(
                p,
                origin,
                origin,
                Some(false),
                Some(!l.wedge && !r.wedge && l.reconcilable && r.reconcilable),
                Some(r.generated || l.generated || many),
                None,
            ),
        )
    }
}

/// The disjunctions of `l` with the first `n` clauses of `rs`.
pub open spec fn disjunctions_with(
    l: ClauseView,
    rs: Seq<ClauseView>,
    n: nat,
    id: (usize, usize),
    many: bool,
) -> Seq<ClauseView>
    decreases n,
{
    if n == 0 {
        Seq::empty()
    } else {
        disjunctions_with(l, rs, (n - 1) as nat, id, many) + opt_seq(
            disjunction(l, rs[n - 1], id, many),
        )
    }
}

/// The disjunctions of the first `m` clauses of `ls` with every clause of
/// `rs`.
pub open spec fn disjunctions(
    ls: Seq<ClauseView>,
    rs: Seq<ClauseView>,
    m: nat,
    id: (usize, usize),
    many: bool,
) -> Seq<ClauseView>
    decreases m,
{
    if m == 0 {
        Seq::empty()
    } else {
        disjunctions(ls, rs, (m - 1) as nat, id, many) + disjunctions_with(
            ls[m - 1],
            rs,
            rs.len(),
            id,
            many,
        )
    }
}

/// Every clause of the list is a wedge.
pub open spec fn all_wedges(s: Seq<ClauseView>) -> bool {
    forall|i: int| 0 <= i < s.len() ==> (#[trigger] s[i]).wedge
}

/// Some clause of the list is a wedge.
pub open spec fn some_wedge(s: Seq<ClauseView>) -> bool {
    exists|i: int| 0 <= i < s.len() && (#[trigger] s[i]).wedge
}

/// The most clause pairs that a disjunction of two formulas may have.
pub const MAX_ORED_PAIRS: usize = 2048;

/// The disjunction of the two formulas is over budget.
pub open spec fn too_many_pairs(ls: Seq<ClauseView>, rs: Seq<ClauseView>) -> bool {
    ls.len() * rs.len() > MAX_ORED_PAIRS
}

/// The formula that says "`ls` or `rs`".
pub open spec fn ored(ls: Seq<ClauseView>, rs: Seq<ClauseView>, id: (usize, usize)) -> Seq<
    ClauseView,
> {
    if ls.len() == 0 || rs.len() == 0 {
        Seq::empty()
    } else if all_wedges(ls) && all_wedges(rs) {
        seq![wedge_clause(id)]
    } else {
        disjunctions(ls, rs, ls.len(), id, ls.len() > 1 || rs.len() > 1) + if some_wedge(ls)
            && some_wedge(rs) {
            seq![wedge_clause(id)]
        } else {
            Seq::empty()
        }
    }
}

/// True when the possibilities make a clause that always holds.
fn is_tautology(p: &StrMap<Alternatives>) -> (r: bool)
    ensures
        r == tautology(poss_view(p.entries())),
{
    let ghost pv = poss_view(p.entries());
    let mut i: usize = 0;
    while i < p.len()
        invariant
            i <= p.entries().len(),
            pv == poss_view(p.entries()),
            forall|j: int|
                0 <= j < i ==> !((#[trigger] pv[j]).1.len() == 2 && negates(pv[j].1[0], pv[j].1[1])),
        decreases p.entries().len() - i,
    {
        let alts = p.value_at(i);
        assert(pv[i as int].1 == alts@);
        if alts.len() == 2 && alts.get(0).is_negation_of(alts.get(1)) {
            return true;
        }
        i += 1;
    }
    false
}

/// The wedge clause of the given provenance.
fn make_wedge(id: (usize, usize)) -> (c: Clause)
    ensures
        c@ == wedge_clause(id),
        c.wf(),
{
    let possibilities: StrMap<Alternatives> = StrMap::new();
    proof {
        lemma_poss_map_wf(possibilities);
        assert(poss_view(possibilities.entries()) =~= Seq::<(Text, Seq<AssertionView>)>::empty());
    }
    Clause::new(possibilities, id, id, Some(true), None, None, None)
}

/// The clause that says "`l` or `r`".
fn disjoin(l: &Clause, r: &Clause, id: (usize, usize), many: bool) -> (c: Option<Clause>)
    requires
        l.wf(),
        r.wf(),
    ensures
        match c {
            Some(x) => disjunction(l@, r@, id, many) == Some(x@) && x.wf(),
            None => disjunction(l@, r@, id, many) is None,
        },
{
    if l.wedge && r.wedge {
        return None;
    }
    proof {
        lemma_poss_map_wf(l.possibilities);
    }
    let possibilities = merge_possibilities(&l.possibilities, &r.possibilities);
    if is_tautology(&possibilities) {
        return None;
    }
    let can_reconcile = !l.wedge && !r.wedge && l.reconcilable && r.reconcilable;
    let origin = if r.creating_conditional_id.0 == l.creating_conditional_id.0
        && r.creating_conditional_id.1 == l.creating_conditional_id.1 {
        r.creating_conditional_id
    } else {
        id
    };
    let is_generated = r.generated || l.generated || many;
    proof {
        lemma_poss_map_wf(possibilities);
    }
    Some(
        Clause::new(
            possibilities,
            origin,
            origin,
            Some(false),
            Some(can_reconcile),
            Some(is_generated),
            None,
        ),
    )
}

/// True when every clause of the list is a wedge.
fn only_wedges(v: &Vec<Clause>) -> (r: bool)
    ensures
        r == all_wedges(clause_views(v@)),
{
    let mut i: usize = 0;
    while i < v.len()
        invariant
            i <= v.len(),
            forall|j: int| 0 <= j < i ==> (#[trigger] clause_views(v@)[j]).wedge,
        decreases v.len() - i,
    {
        assert(clause_views(v@)[i as int] == v@[i as int]@);
        if !v[i].wedge {
            return false;
        }
        i += 1;
    }
    true
}

/// True when some clause of the list is a wedge.
fn any_wedge(v: &Vec<Clause>) -> (r: bool)
    ensures
        r == some_wedge(clause_views(v@)),
{
    let mut i: usize = 0;
    while i < v.len()
        invariant
            i <= v.len(),
            forall|j: int| 0 <= j < i ==> !(#[trigger] clause_views(v@)[j]).wedge,
        decreases v.len() - i,
    {
        assert(clause_views(v@)[i as int] == v@[i as int]@);
        if v[i].wedge {
            return true;
        }
        i += 1;
    }
    false
}

/// The formula that says "`left_clauses` or `right_clauses`". Fails when
/// the two formulas have more than 2048 pairs of clauses.
pub fn combine_ored_clauses(
    left_clauses: &Vec<Clause>,
    right_clauses: &Vec<Clause>,
    conditional_object_id: (usize, usize),
) -> (r: Result<Vec<Clause>, String>)
    requires
        all_wf(clause_views(left_clauses@)),
        all_wf(clause_views(right_clauses@)),
    ensures
        match r {
            Ok(clauses) => !too_many_pairs(clause_views(left_clauses@), clause_views(right_clauses@))
                && clause_views(clauses@) == ored(
                clause_views(left_clauses@),
                clause_views(right_clauses@),
                conditional_object_id,
            ) && all_wf(clause_views(clauses@)),
            Err(e) => too_many_pairs(clause_views(left_clauses@), clause_views(right_clauses@))
                && e@ == "too many clauses"@,
        },
{
    let ghost ls = clause_views(left_clauses@);
    let ghost rs = clause_views(right_clauses@);
    let ll = left_clauses.len();
    let rl = right_clauses.len();
    if ll == 0 || rl == 0 {
        assert(ls.len() * rs.len() == 0) by (nonlinear_arith)
            requires
                ls.len() == 0 || rs.len() == 0,
        ;
        let r: Vec<Clause> = Vec::new();
        assert(clause_views(r@) =~= Seq::<ClauseView>::empty());
        return Ok(r);
    }
    if ll > MAX_ORED_PAIRS || rl > MAX_ORED_PAIRS {
        assert(ls.len() * rs.len() > 2048) by (nonlinear_arith)
            requires
                ls.len() >= 1,
                rs.len() >= 1,
                ls.len() > 2048 || rs.len() > 2048,
        ;
        return Err(String::from_str("too many clauses"));
    }
    assert(ll * rl <= 2048 * 2048) by (nonlinear_arith)
        requires
            ll <= 2048,
            rl <= 2048,
    ;
    if ll * rl > MAX_ORED_PAIRS {
        return Err(String::from_str("too many clauses"));
    }
    if only_wedges(left_clauses) && only_wedges(right_clauses) {
        let mut r: Vec<Clause> = Vec::new();
        r.push(make_wedge(conditional_object_id));
        assert(clause_views(r@) =~= seq![wedge_clause(conditional_object_id)]);
        return Ok(r);
    }
    let many = ll > 1 || rl > 1;
    let id = conditional_object_id;
    let mut clauses: Vec<Clause> = Vec::new();
    let mut m: usize = 0;
    assert(clause_views(clauses@) =~= disjunctions(ls, rs, 0, id, many));
    while m < ll
        invariant
            m <= ll,
            ll == left_clauses.len(),
            rl == right_clauses.len(),
            ls == clause_views(left_clauses@),
            rs == clause_views(right_clauses@),
            all_wf(ls),
            all_wf(rs),
            all_wf(clause_views(clauses@)),
            clause_views(clauses@) == disjunctions(ls, rs, m as nat, id, many),
        decreases ll - m,
    {
        let l = &left_clauses[m];
        assert(ls[m as int] == l@);
        let ghost base = clause_views(clauses@);
        let mut n: usize = 0;
        assert(base + disjunctions_with(l@, rs, 0, id, many) =~= base);
        while n < rl
            invariant
                n <= rl,
                rl == right_clauses.len(),
                rs == clause_views(right_clauses@),
                all_wf(rs),
                l.wf(),
                all_wf(clause_views(clauses@)),
                clause_views(clauses@) == base + disjunctions_with(l@, rs, n as nat, id, many),
            decreases rl - n,
        {
            let r = &right_clauses[n];
            assert(rs[n as int] == r@);
            let ghost before = clause_views(clauses@);
            match disjoin(l, r, id, many) {
                Some(c) => {
                    clauses.push(c);
                    assert(clause_views(clauses@) =~= before.push(c@));
                    assert(before.push(c@) =~= base + disjunctions_with(
                        l@,
                        rs,
                        (n + 1) as nat,
                        id,
                        many,
                    ));
                    assert forall|i: int| 0 <= i < clause_views(clauses@).len() implies poss_wf(
                        (#[trigger] clause_views(clauses@)[i]).possibilities,
                    ) by {
                        if i < before.len() {
                            assert(clause_views(clauses@)[i] == before[i]);
                        }
                    }
                },
                None => {
                    assert(before =~= base + disjunctions_with(l@, rs, (n + 1) as nat, id, many));
                },
            }
            n += 1;
        }
        m += 1;
    }
    if any_wedge(left_clauses) && any_wedge(right_clauses) {
        let ghost before = clause_views(clauses@);
        clauses.push(make_wedge(id));
        assert(clause_views(clauses@) =~= before + seq![wedge_clause(id)]);
        assert forall|i: int| 0 <= i < clause_views(clauses@).len() implies poss_wf(
            (#[trigger] clause_views(clauses@)[i]).possibilities,
        ) by {
            if i < before.len() {
                assert(clause_views(clauses@)[i] == before[i]);
            }
        }
    } else {
        assert(clause_views(clauses@) =~= clause_views(clauses@) + Seq::<ClauseView>::empty());
    }
    Ok(clauses)
}

} // verus!
