//! The disjunction of two formulas does not depend on their order.
use crate::algebra::{
    all_wedges, all_wf, disjunction, disjunctions, disjunctions_with, has_clause, lemma_merged_wf,
    merged, opt_seq, ored, tautology, too_many_pairs,
};
use crate::assertion::{lemma_negates_symmetric, negates, AssertionView};
use crate::clause::{
    lemma_same_literals, poss_wf, same_clause, same_literals, wedge_clause, ClauseView, PossView,
};
use crate::seq_set::{lemma_subset_len, lemma_with_all, same_items, with_all};
use crate::str_map::{
    has_key, index_of_key, lemma_index_unique, lemma_put, lemma_same_keys, put, sorted, value_of,
};
use crate::text::Text;
use vstd::prelude::*;

verus! {

/// The literal `(k, x)` is among the possibilities.
pub open spec fn has_literal(p: PossView, k: Text, x: AssertionView) -> bool {
    has_key(p, k) && value_of(p, k).contains(x)
}

/// Merged possibilities name the variables of both sides and hold the
/// literals of both sides.
pub proof fn lemma_merged_literals(p: PossView, q: PossView)
    requires
        poss_wf(p),
        sorted(q),
    ensures
        forall|k: Text| #[trigger]
            has_key(merged(p, q), k) <==> (has_key(p, k) || has_key(q, k)),
        forall|k: Text, x: AssertionView| #[trigger]
            has_literal(merged(p, q), k, x) <==> (has_literal(p, k, x) || has_literal(q, k, x)),
    decreases q.len(),
{
    if q.len() > 0 {
        let q0 = q.drop_last();
        assert forall|i: int, j: int| 0 <= i < j < q0.len() implies crate::text::text_lt(
            (#[trigger] q0[i]).0,
            (#[trigger] q0[j]).0,
        ) by {
            assert(q0[i] == q[i] && q0[j] == q[j]);
        }
        lemma_merged_literals(p, q0);
        lemma_merged_wf(p, q0);
        let m = merged(p, q0);
        let var = q.last().0;
        let old_alts = if has_key(m, var) {
            value_of(m, var)
        } else {
            Seq::empty()
        };
        let all = with_all(old_alts, q.last().1);
        lemma_with_all(old_alts, q.last().1);
        lemma_put(m, var, all);
        let r = merged(p, q);
        assert(r == put(m, var, all));
        lemma_index_unique(q, q.len() - 1);
        // the last variable of q is not among the earlier ones
        assert(!has_key(q0, var)) by {
            if has_key(q0, var) {
                let i = index_of_key(q0, var);
                assert(q0[i] == q[i]);
                lemma_index_unique(q, i);
            }
        }
        assert forall|k: Text| has_key(q, k) <==> (has_key(q0, k) || k == var) by {
            if has_key(q, k) {
                let i = index_of_key(q, k);
                if i < q0.len() {
                    assert(q0[i].0 == k);
                }
            }
            if has_key(q0, k) {
                let i = index_of_key(q0, k);
                assert(q[i].0 == k);
            }
        }
        assert forall|k: Text| k != var && has_key(q, k) implies value_of(q, k) == value_of(
            q0,
            k,
        ) by {
            let i = index_of_key(q, k);
            lemma_index_unique(q, i);
            assert(q0[i] == q[i]);
            lemma_index_unique(q0, i);
        }
        assert forall|k: Text| has_key(r, k) <==> (has_key(p, k) || has_key(q, k)) by {
            assert(has_key(m, k) <==> (has_key(p, k) || has_key(q0, k)));
            assert(has_key(q, k) <==> (has_key(q0, k) || k == var));
            if k != var {
                assert(has_key(r, k) == has_key(m, k));
            }
        }
        assert forall|k: Text, x: AssertionView|
            has_literal(r, k, x) <==> (has_literal(p, k, x) || has_literal(q, k, x)) by {
            if k == var {
                assert(value_of(r, k) == all);
                assert(value_of(q, k) == q.last().1);
                if has_key(m, var) {
                    assert(has_literal(m, k, x) <==> (has_literal(p, k, x) || has_literal(
                        q0,
                        k,
                        x,
                    )));
                } else {
                    assert(!old_alts.contains(x));
                }
            } else {
                if has_key(m, k) {
                    assert(value_of(r, k) == value_of(m, k));
                }
                assert(has_literal(m, k, x) <==> (has_literal(p, k, x) || has_literal(q0, k, x)));
            }
        }
    }
}

/// Merging in either order gives the same variables with the same
/// alternatives.
pub proof fn lemma_merged_commutes(p: PossView, q: PossView)
    requires
        poss_wf(p),
        poss_wf(q),
    ensures
        same_literals(merged(p, q), merged(q, p)),
        poss_wf(merged(p, q)),
        poss_wf(merged(q, p)),
{
    let a = merged(p, q);
    let b = merged(q, p);
    lemma_merged_literals(p, q);
    lemma_merged_literals(q, p);
    lemma_merged_wf(p, q);
    lemma_merged_wf(q, p);
    assert forall|k: Text| has_key(a, k) == has_key(b, k) by {
        assert(has_key(a, k) <==> (has_key(p, k) || has_key(q, k)));
        assert(has_key(b, k) <==> (has_key(q, k) || has_key(p, k)));
    }
    lemma_same_keys(a, b);
    assert forall|i: int| 0 <= i < a.len() implies (#[trigger] a[i]).0 == b[i].0 && same_items(
        a[i].1,
        b[i].1,
    ) by {
        let k = a[i].0;
        lemma_index_unique(a, i);
        lemma_index_unique(b, i);
        assert forall|j: int| 0 <= j < a[i].1.len() implies b[i].1.contains(
            #[trigger] a[i].1[j],
        ) by {
            let x = a[i].1[j];
            assert(a[i].1.contains(x));
            assert(has_literal(a, k, x));
            assert(has_literal(b, k, x));
        }
        assert forall|j: int| 0 <= j < b[i].1.len() implies a[i].1.contains(
            #[trigger] b[i].1[j],
        ) by {
            let x = b[i].1[j];
            assert(b[i].1.contains(x));
            assert(has_literal(b, k, x));
            assert(has_literal(a, k, x));
        }
    }
}

/// Possibilities with the same variables and alternatives always hold
/// together.
pub proof fn lemma_tautology_same(a: PossView, b: PossView)
    requires
        poss_wf(a),
        poss_wf(b),
        same_literals(a, b),
        tautology(a),
    ensures
        tautology(b),
{
    let i = choose|i: int|
        0 <= i < a.len() && (#[trigger] a[i]).1.len() == 2 && negates(a[i].1[0], a[i].1[1]);
    let x = a[i].1;
    let y = b[i].1;
    assert(same_items(x, y));
    lemma_subset_len(x, y);
    lemma_subset_len(y, x);
    assert(y.contains(x[0]));
    assert(y.contains(x[1]));
    assert(x[0] != x[1]);
    lemma_negates_symmetric(x[0], x[1]);
    let j0 = y.index_of(x[0]);
    let j1 = y.index_of(x[1]);
    assert(j0 != j1);
    assert(negates(y[0], y[1]));
    assert(b[i].1.len() == 2 && negates(b[i].1[0], b[i].1[1]));
}

/// The two clauses agree in all that a clause holds: provenance, flags and
/// redefined variables are equal, and they name the same variables with
/// the same alternatives, which may be listed in another order.
pub open spec fn alike(a: ClauseView, b: ClauseView) -> bool {
    &&& same_literals(a.possibilities, b.possibilities)
    &&& a.creating_conditional_id == b.creating_conditional_id
    &&& a.creating_object_id == b.creating_object_id
    &&& a.wedge == b.wedge
    &&& a.reconcilable == b.reconcilable
    &&& a.generated == b.generated
    &&& a.redefined_vars == b.redefined_vars
}

/// "`l` or `r`" and "`r` or `l`" are the same clause with the same
/// provenance and flags, or neither is one.
pub proof fn lemma_disjunction_commutes(
    l: ClauseView,
    r: ClauseView,
    id: (usize, usize),
    many: bool,
)
    requires
        poss_wf(l.possibilities),
        poss_wf(r.possibilities),
    ensures
        disjunction(l, r, id, many) is Some <==> disjunction(r, l, id, many) is Some,
        disjunction(l, r, id, many) is Some ==> same_clause(
            disjunction(l, r, id, many)->0,
            disjunction(r, l, id, many)->0,
        ) && alike(disjunction(l, r, id, many)->0, disjunction(r, l, id, many)->0),
{
    let a = merged(l.possibilities, r.possibilities);
    let b = merged(r.possibilities, l.possibilities);
    lemma_merged_commutes(l.possibilities, r.possibilities);
    lemma_merged_commutes(r.possibilities, l.possibilities);
    if tautology(a) {
        lemma_tautology_same(a, b);
    }
    if tautology(b) {
        lemma_tautology_same(b, a);
    }
    lemma_same_literals(a, b);
}

/// The disjunctions of `l` with the first `n` of `rs` are the clauses
/// that `l` makes with one of them.
proof fn lemma_disjunctions_with(
    l: ClauseView,
    rs: Seq<ClauseView>,
    n: nat,
    id: (usize, usize),
    many: bool,
    c: ClauseView,
)
    requires
        n <= rs.len(),
    ensures
        disjunctions_with(l, rs, n, id, many).contains(c) <==> exists|j: int|
            0 <= j < n && disjunction(l, #[trigger] rs[j], id, many) == Some(c),
    decreases n,
{
    if n > 0 {
        lemma_disjunctions_with(l, rs, (n - 1) as nat, id, many, c);
        let prev = disjunctions_with(l, rs, (n - 1) as nat, id, many);
        let last = opt_seq(disjunction(l, rs[n - 1], id, many));
        let all = disjunctions_with(l, rs, n, id, many);
        if all.contains(c) {
            let x = all.index_of(c);
            if x < prev.len() {
                assert(prev[x] == all[x]);
                assert(prev.contains(c));
            } else {
                assert(all[x] == last[x - prev.len()]);
                assert(disjunction(l, rs[n - 1], id, many) == Some(c));
            }
        }
        if exists|j: int| 0 <= j < n && disjunction(l, #[trigger] rs[j], id, many) == Some(c) {
            let j = choose|j: int|
                0 <= j < n && disjunction(l, #[trigger] rs[j], id, many) == Some(c);
            if j < n - 1 {
                assert(prev.contains(c));
                let x = prev.index_of(c);
                assert(all[x] == prev[x]);
            } else {
                assert(all[prev.len() as int] == c);
            }
        }
    }
}

/// The disjunctions of the first `m` of `ls` with `rs` are the clauses
/// that one of them makes with one of `rs`.
proof fn lemma_disjunctions(
    ls: Seq<ClauseView>,
    rs: Seq<ClauseView>,
    m: nat,
    id: (usize, usize),
    many: bool,
    c: ClauseView,
)
    requires
        m <= ls.len(),
    ensures
        disjunctions(ls, rs, m, id, many).contains(c) <==> exists|i: int, j: int|
            0 <= i < m && 0 <= j < rs.len() && disjunction(
                #[trigger] ls[i],
                #[trigger] rs[j],
                id,
                many,
            ) == Some(c),
    decreases m,
{
    if m > 0 {
        lemma_disjunctions(ls, rs, (m - 1) as nat, id, many, c);
        lemma_disjunctions_with(ls[m - 1], rs, rs.len(), id, many, c);
        let prev = disjunctions(ls, rs, (m - 1) as nat, id, many);
        let last = disjunctions_with(ls[m - 1], rs, rs.len(), id, many);
        let all = disjunctions(ls, rs, m, id, many);
        if all.contains(c) {
            let x = all.index_of(c);
            if x < prev.len() {
                assert(prev[x] == all[x]);
                assert(prev.contains(c));
            } else {
                assert(all[x] == last[x - prev.len()]);
                assert(last.contains(c));
                let j = choose|j: int|
                    0 <= j < rs.len() && disjunction(ls[m - 1], #[trigger] rs[j], id, many)
                        == Some(c);
                assert(disjunction(ls[m - 1], rs[j], id, many) == Some(c));
            }
        }
        if exists|i: int, j: int|
            0 <= i < m && 0 <= j < rs.len() && disjunction(
                #[trigger] ls[i],
                #[trigger] rs[j],
                id,
                many,
            ) == Some(c) {
            let (i, j) = choose|i: int, j: int|
                0 <= i < m && 0 <= j < rs.len() && disjunction(
                    #[trigger] ls[i],
                    #[trigger] rs[j],
                    id,
                    many,
                ) == Some(c);
            if i < m - 1 {
                assert(prev.contains(c));
                let x = prev.index_of(c);
                assert(all[x] == prev[x]);
            } else {
                assert(last.contains(c));
                let x = last.index_of(c);
                assert(all[prev.len() + x] == last[x]);
            }
        }
    }
}

/// Every clause of `a` is the same clause as one of `b`, and the other
/// way round.
pub open spec fn same_clauses(a: Seq<ClauseView>, b: Seq<ClauseView>) -> bool {
    forall|c: ClauseView| has_clause(a, c) == has_clause(b, c)
}

/// Some clause of `s` is the same clause as `c` and agrees with it in
/// provenance, flags and redefined variables.
pub open spec fn has_alike(s: Seq<ClauseView>, c: ClauseView) -> bool {
    exists|i: int| 0 <= i < s.len() && same_clause(#[trigger] s[i], c) && alike(s[i], c)
}

/// Each clause of `a` has its like in `b`.
pub open spec fn each_alike(a: Seq<ClauseView>, b: Seq<ClauseView>) -> bool {
    forall|i: int| 0 <= i < a.len() ==> has_alike(b, #[trigger] a[i])
}

/// One half of the commutativity of the disjunction of formulas.
proof fn lemma_ored_included(
    ls: Seq<ClauseView>,
    rs: Seq<ClauseView>,
    id: (usize, usize),
    x: int,
)
    requires
        all_wf(ls),
        all_wf(rs),
        0 <= x < ored(ls, rs, id).len(),
    ensures
        has_alike(ored(rs, ls, id), ored(ls, rs, id)[x]),
{
    let a = ored(ls, rs, id);
    let b = ored(rs, ls, id);
    let c = a[x];
    let many = ls.len() > 1 || rs.len() > 1;
    if all_wedges(ls) && all_wedges(rs) {
        assert(a =~= b);
        assert(same_clause(b[x], c) && alike(b[x], c));
    } else {
        let da = disjunctions(ls, rs, ls.len(), id, many);
        let db = disjunctions(rs, ls, rs.len(), id, many);
        if x < da.len() {
            assert(da[x] == c);
            assert(da.contains(c));
            lemma_disjunctions(ls, rs, ls.len(), id, many, c);
            let (i, j) = choose|i: int, j: int|
                0 <= i < ls.len() && 0 <= j < rs.len() && disjunction(
                    #[trigger] ls[i],
                    #[trigger] rs[j],
                    id,
                    many,
                ) == Some(c);
            lemma_disjunction_commutes(ls[i], rs[j], id, many);
            let d = disjunction(rs[j], ls[i], id, many)->0;
            lemma_disjunctions(rs, ls, rs.len(), id, many, d);
            assert(disjunction(rs[j], ls[i], id, many) == Some(d));
            assert(db.contains(d));
            let y = db.index_of(d);
            assert(b[y] == d);
            assert(same_clause(b[y], c) && alike(b[y], c));
        } else {
            assert(c == wedge_clause(id));
            assert(b[db.len() as int] == wedge_clause(id));
            assert(same_clause(b[db.len() as int], c) && alike(b[db.len() as int], c));
        }
    }
}

/// The disjunction of two formulas does not depend on their order: the
/// budget is passed for both orders or for neither, and each clause of
/// "`ls` or `rs`" is the same clause as one of "`rs` or `ls`", with the
/// same provenance, flags and redefined variables, and the other way
/// round.
pub proof fn lemma_ored_commutes(ls: Seq<ClauseView>, rs: Seq<ClauseView>, id: (usize, usize))
    requires
        all_wf(ls),
        all_wf(rs),
    ensures
        too_many_pairs(ls, rs) == too_many_pairs(rs, ls),
        same_clauses(ored(ls, rs, id), ored(rs, ls, id)),
        each_alike(ored(ls, rs, id), ored(rs, ls, id)),
        each_alike(ored(rs, ls, id), ored(ls, rs, id)),
{
    let a = ored(ls, rs, id);
    let b = ored(rs, ls, id);
    assert(ls.len() * rs.len() == rs.len() * ls.len()) by (nonlinear_arith);
    assert forall|i: int| 0 <= i < a.len() implies has_alike(b, #[trigger] a[i]) by {
        lemma_ored_included(ls, rs, id, i);
    }
    assert forall|i: int| 0 <= i < b.len() implies has_alike(a, #[trigger] b[i]) by {
        lemma_ored_included(rs, ls, id, i);
    }
    assert forall|c: ClauseView| has_clause(a, c) == has_clause(b, c) by {
        if has_clause(a, c) {
            let x = choose|x: int| 0 <= x < a.len() && same_clause(#[trigger] a[x], c);
            assert(has_alike(b, a[x]));
            let y = choose|y: int|
                0 <= y < b.len() && same_clause(#[trigger] b[y], a[x]) && alike(b[y], a[x]);
            assert(same_clause(b[y], c));
        }
        if has_clause(b, c) {
            let x = choose|x: int| 0 <= x < b.len() && same_clause(#[trigger] b[x], c);
            assert(has_alike(a, b[x]));
            let y = choose|y: int|
                0 <= y < a.len() && same_clause(#[trigger] a[y], b[x]) && alike(a[y], b[x]);
            assert(same_clause(a[y], c));
        }
    }
}

} // verus!
