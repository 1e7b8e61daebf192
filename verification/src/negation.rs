//! Negation of a formula: the impossibilities of its clauses, distributed
//! into conjunctive normal form under a fixed budget.
use crate::algebra::{all_wf, clause_ref_views, clause_views, simplified, simplify_cnf};
use crate::assertion::{negates, negation, Alternatives, Assertion, AssertionView};
use crate::clause::{
    alt_view, impossibilities, lemma_poss_map_wf, lemma_put_wf, new_clause, poss_view, poss_wf,
    wedge_clause, Clause, ClauseView, PossView,
};
use crate::seq_set::{keep, lemma_keep_step, with_item};
use crate::str_map::{
    has_key, index_of_key, lemma_index_unique, lemma_map_vals, lemma_map_vals_put, put, value_of,
    StrMap,
};
use crate::text::Text;
use rand::Rng;
use vstd::prelude::*;
use vstd::string::*;

verus! {

/// The most literal insertions that grouping impossibilities may make, and
/// the most candidates that it may set out to build.
pub const MAX_COMPLEXITY: usize = 20000;

/// The literals of the possibilities, variable by variable.
pub open spec fn literal_list(p: PossView) -> Seq<(Text, AssertionView)>
    decreases p.len(),
{
    if p.len() == 0 {
        Seq::empty()
    } else {
        literal_list(p.drop_last()) + p.last().1.map_values(
            |a: AssertionView| (p.last().0, a),
        )
    }
}

/// The clause of the one literal `(var, a)`.
pub open spec fn unit_clause(
    var: Text,
    a: AssertionView,
    creating_conditional_id: (usize, usize),
    creating_object_id: (usize, usize),
) -> ClauseView {
    new_clause(
        seq![(var, seq![a])],
        creating_conditional_id,
        creating_object_id,
        None,
        None,
        None,
        None,
    )
}

/// One candidate for each impossibility of `c`; none for a wedge.
pub open spec fn seeds(c: ClauseView) -> Seq<ClauseView> {
    if c.wedge {
        Seq::empty()
    } else {
        literal_list(impossibilities(c)).map_values(
            |l: (Text, AssertionView)|
                unit_clause(l.0, l.1, c.creating_conditional_id, c.creating_object_id),
        )
    }
}

/// The candidate `g` already holds, for `var`, the negation of `a`.
pub open spec fn conflicts(g: ClauseView, var: Text, a: AssertionView) -> bool {
    has_key(g.possibilities, var) && exists|k: int|
        0 <= k < value_of(g.possibilities, var).len() && negates(
            #[trigger] value_of(g.possibilities, var)[k],
            a,
        )
}

/// The candidate `g` with the literal `(var, a)` of clause `c` added.
pub open spec fn extended(g: ClauseView, c: ClauseView, var: Text, a: AssertionView) -> ClauseView {
    let old_alts = if has_key(g.possibilities, var) {
        value_of(g.possibilities, var)
    } else {
        Seq::empty()
    };
    new_clause(
        put(g.possibilities, var, with_item(old_alts, a)),
        g.creating_conditional_id,
        c.creating_object_id,
        Some(false),
        Some(true),
        Some(true),
        None,
    )
}

/// The candidates that `g` gives with the first `n` impossibilities of `c`:
/// one for each impossibility that does not conflict with `g`.
pub open spec fn extensions_of(g: ClauseView, c: ClauseView, n: nat) -> Seq<ClauseView>
    decreases n,
{
    if n == 0 {
        Seq::empty()
    } else {
        let l = literal_list(impossibilities(c))[n - 1];
        extensions_of(g, c, (n - 1) as nat) + if conflicts(g, l.0, l.1) {
            Seq::empty()
        } else {
            seq![extended(g, c, l.0, l.1)]
        }
    }
}

/// The candidates that the first `m` of `gs` give with the impossibilities
/// of `c`.
pub open spec fn extensions(gs: Seq<ClauseView>, c: ClauseView, m: nat) -> Seq<ClauseView>
    decreases m,
{
    if m == 0 {
        Seq::empty()
    } else {
        extensions(gs, c, (m - 1) as nat) + extensions_of(
            gs[m - 1],
            c,
            literal_list(impossibilities(c)).len(),
        )
    }
}

/// The candidates after the clauses of `rest` have been worked in, last
/// clause first; none once more than [`MAX_COMPLEXITY`] insertions have
/// been counted.
pub open spec fn grouping(gs: Seq<ClauseView>, rest: Seq<ClauseView>, complexity: int) -> Option<
    Seq<ClauseView>,
>
    decreases rest.len(),
{
    if rest.len() == 0 {
        Some(gs)
    } else {
        let next = extensions(gs, rest.last(), gs.len());
        if next.len() > 0 && complexity + next.len() > MAX_COMPLEXITY {
            None
        } else {
            grouping(next, rest.drop_last(), complexity + next.len())
        }
    }
}

/// The number of literals of a clause.
pub open spec fn literal_count(c: ClauseView) -> nat {
    literal_list(c.possibilities).len()
}

/// `start` times the literal counts of the first `n` clauses.
pub open spec fn candidate_bound(start: int, cs: Seq<ClauseView>, n: nat) -> int
    decreases n,
{
    if n == 0 {
        start
    } else {
        candidate_bound(start, cs, (n - 1) as nat) * literal_count(cs[n - 1])
    }
}

/// The bound on the number of candidates passes [`MAX_COMPLEXITY`] at one
/// of the first `n` clauses.
pub open spec fn over_bound(start: int, cs: Seq<ClauseView>, n: nat) -> bool
    decreases n,
{
    n > 0 && (over_bound(start, cs, (n - 1) as nat) || candidate_bound(start, cs, n)
        > MAX_COMPLEXITY)
}

/// The negation of the conjunction of the clauses, as a conjunction of
/// clauses: each picks one impossibility from every clause. None where the
/// budget does not suffice.
pub open spec fn grouped_impossibilities(cs: Seq<ClauseView>) -> Option<Seq<ClauseView>> {
    let first = seeds(cs.last());
    let rest = cs.drop_last();
    if rest.len() == 0 || first.len() == 0 {
        Some(first)
    } else if over_bound(first.len() as int, rest, rest.len()) {
        None
    } else {
        grouping(first, rest, 1 + first.len() as int)
    }
}

/// The values of a list of named assertions.
pub open spec fn literal_views(s: Seq<(String, Assertion)>) -> Seq<(Text, AssertionView)> {
    s.map_values(|l: (String, Assertion)| (l.0@, l.1@))
}

/// What `literal_list` makes of possibilities that are one variable longer.
proof fn lemma_literal_list_step(p: PossView, i: int)
    requires
        0 <= i < p.len(),
    ensures
        literal_list(p.take(i + 1)) == literal_list(p.take(i)) + p[i].1.map_values(
            |a: AssertionView| (p[i].0, a),
        ),
{
    assert(p.take(i + 1).drop_last() =~= p.take(i));
    assert(p.take(i + 1).last() == p[i]);
}

/// The negation of every literal of the clause, variable by variable.
fn negated_literals(c: &Clause) -> (r: Vec<(String, Assertion)>)
    ensures
        literal_views(r@) == literal_list(impossibilities(c@)),
{
    let ghost imp = impossibilities(c@);
    let mut r: Vec<(String, Assertion)> = Vec::new();
    let mut i: usize = 0;
    assert(imp.take(0) =~= Seq::<(Text, Seq<AssertionView>)>::empty());
    assert(literal_views(r@) =~= literal_list(imp.take(0)));
    while i < c.possibilities.len()
        invariant
            i <= c.possibilities.entries().len(),
            imp == impossibilities(c@),
            imp.len() == c.possibilities.entries().len(),
            literal_views(r@) == literal_list(imp.take(i as int)),
        decreases c.possibilities.entries().len() - i,
    {
        let var = c.possibilities.key_at(i);
        let alts = c.possibilities.value_at(i);
        let ghost base = literal_views(r@);
        let ghost f = |a: AssertionView| (imp[i as int].0, a);
        proof {
            lemma_literal_list_step(imp, i as int);
            assert(c@.possibilities[i as int].1 == alts@);
            assert(imp[i as int].0 == var@);
            assert(imp[i as int].1 == crate::clause::negations(alts@));
        }
        let mut k: usize = 0;
        assert(base + imp[i as int].1.take(0).map_values(f) =~= base);
        while k < alts.len()
            invariant
                k <= alts@.len(),
                imp[i as int].1 == crate::clause::negations(alts@),
                imp[i as int].0 == var@,
                f == (|a: AssertionView| (imp[i as int].0, a)),
                literal_views(r@) == base + imp[i as int].1.take(k as int).map_values(f),
            decreases alts@.len() - k,
        {
            let ghost before = literal_views(r@);
            let n = alts.get(k).get_negation();
            r.push((var.clone(), n));
            assert(literal_views(r@) =~= before.push((var@, n@)));
            assert(before.push((var@, n@)) =~= base + imp[i as int].1.take(k as int + 1).map_values(
                f,
            ));
            k += 1;
        }
        assert(imp[i as int].1.take(k as int) =~= imp[i as int].1);
        i += 1;
    }
    assert(imp.take(i as int) =~= imp);
    r
}

/// The number of literals of the clause, or [`MAX_COMPLEXITY`] plus one if
/// there are more than [`MAX_COMPLEXITY`].
fn capped_literal_count(c: &Clause) -> (n: usize)
    ensures
        n == if literal_count(c@) > MAX_COMPLEXITY {
            MAX_COMPLEXITY + 1
        } else {
            literal_count(c@) as int
        },
{
    let ghost p = c@.possibilities;
    let mut n: usize = 0;
    let mut i: usize = 0;
    assert(p.take(0) =~= Seq::<(Text, Seq<AssertionView>)>::empty());
    while i < c.possibilities.len()
        invariant
            i <= c.possibilities.entries().len(),
            p == c@.possibilities,
            p.len() == c.possibilities.entries().len(),
            n == if literal_list(p.take(i as int)).len() > MAX_COMPLEXITY {
                MAX_COMPLEXITY + 1
            } else {
                literal_list(p.take(i as int)).len() as int
            },
        decreases c.possibilities.entries().len() - i,
    {
        let alts = c.possibilities.value_at(i);
        proof {
            lemma_literal_list_step(p, i as int);
            assert(p[i as int].1 == alts@);
        }
        let len = alts.len();
        if len > MAX_COMPLEXITY || n + len > MAX_COMPLEXITY {
            n = MAX_COMPLEXITY + 1;
        } else {
            n = n + len;
        }
        i += 1;
    }
    assert(p.take(i as int) =~= p);
    n
}

/// One candidate for each impossibility of the clause.
fn seed_clauses(c: &Clause) -> (r: Vec<Clause>)
    ensures
        clause_views(r@) == seeds(c@),
        all_wf(clause_views(r@)),
{
    let mut r: Vec<Clause> = Vec::new();
    if c.wedge {
        assert(clause_views(r@) =~= seeds(c@));
        return r;
    }
    let literals = negated_literals(c);
    let ghost lv = literal_views(literals@);
    let mut i: usize = 0;
    while i < literals.len()
        invariant
            i <= literals.len(),
            lv == literal_views(literals@),
            r.len() == i,
            all_wf(clause_views(r@)),
            forall|j: int|
                0 <= j < i ==> (#[trigger] r@[j])@ == unit_clause(
                    lv[j].0,
                    lv[j].1,
                    c.creating_conditional_id,
                    c.creating_object_id,
                ),
        decreases literals.len() - i,
    {
        let var = &literals[i].0;
        let a = &literals[i].1;
        assert(lv[i as int] == (var@, a@));
        let mut possibilities: StrMap<Alternatives> = StrMap::new();
        let alts = Alternatives::single(a.clone());
        proof {
            lemma_map_vals_put(possibilities.entries(), alt_view(), var@, alts);
            assert(poss_view(possibilities.entries()) =~= Seq::<(Text, Seq<AssertionView>)>::empty());
            assert(!has_key(Seq::<(Text, Seq<AssertionView>)>::empty(), var@));
            lemma_put_wf(Seq::<(Text, Seq<AssertionView>)>::empty(), var@, alts@);
        }
        possibilities.insert(var.clone(), alts);
        assert(poss_view(possibilities.entries()) =~= seq![(var@, seq![a@])]);
        let seed = Clause::new(
            possibilities,
            c.creating_conditional_id,
            c.creating_object_id,
            None,
            None,
            None,
            None,
        );
        let ghost before = clause_views(r@);
        r.push(seed);
        assert forall|x: int| 0 <= x < clause_views(r@).len() implies poss_wf(
            (#[trigger] clause_views(r@)[x]).possibilities,
        ) by {
            if x < before.len() {
                assert(clause_views(r@)[x] == before[x]);
            }
        }
        i += 1;
    }
    assert(clause_views(r@) =~= seeds(c@));
    r
}

/// True when the candidate already holds, for `var`, the negation of `a`.
fn is_conflict(g: &Clause, var: &str, a: &Assertion) -> (r: bool)
    requires
        g.wf(),
    ensures
        r == conflicts(g@, var@, a@),
{
    proof {
        lemma_poss_map_wf(g.possibilities);
        lemma_map_vals(g.possibilities.entries(), alt_view());
    }
    match g.possibilities.get(var) {
        None => false,
        Some(alts) => {
            assert(alts@ == value_of(g@.possibilities, var@));
            let mut k: usize = 0;
            while k < alts.len()
                invariant
                    k <= alts@.len(),
                    has_key(g@.possibilities, var@),
                    alts@ == value_of(g@.possibilities, var@),
                    forall|j: int| 0 <= j < k ==> !negates(#[trigger] alts@[j], a@),
                decreases alts@.len() - k,
            {
                if alts.get(k).is_negation_of(a) {
                    return true;
                }
                k += 1;
            }
            false
        },
    }
}

/// The candidate with the literal `(var, a)` of clause `c` added.
fn extend_candidate(g: &Clause, c: &Clause, var: &String, a: &Assertion) -> (r: Clause)
    requires
        g.wf(),
    ensures
        r@ == extended(g@, c@, var@, a@),
        r.wf(),
{
    proof {
        lemma_poss_map_wf(g.possibilities);
        lemma_map_vals(g.possibilities.entries(), alt_view());
    }
    let mut possibilities = crate::clause::clone_possibilities(&g.possibilities);
    proof {
        lemma_poss_map_wf(possibilities);
        lemma_map_vals(possibilities.entries(), alt_view());
    }
    let mut alts = match possibilities.get(var.as_str()) {
        Some(x) => {
            proof {
                let i = index_of_key(possibilities.entries(), var@);
                lemma_index_unique(possibilities.entries(), i);
                assert(possibilities.entries()[i].1.wf());
            }
            x.clone()
        },
        None => Alternatives::new(),
    };
    alts.insert(a.clone());
    proof {
        lemma_map_vals_put(possibilities.entries(), alt_view(), var@, alts);
        lemma_put_wf(g@.possibilities, var@, alts@);
    }
    possibilities.insert(var.clone(), alts);
    Clause::new(
        possibilities,
        g.creating_conditional_id,
        c.creating_object_id,
        Some(false),
        Some(true),
        Some(true),
        None,
    )
}

/// A count, or [`MAX_COMPLEXITY`] plus one for any count above
/// [`MAX_COMPLEXITY`].
pub open spec fn capped(x: int) -> int {
    if x > MAX_COMPLEXITY {
        MAX_COMPLEXITY + 1
    } else {
        x
    }
}

/// A longer prefix of the impossibilities gives no fewer candidates.
proof fn lemma_extensions_of_grow(g: ClauseView, c: ClauseView, n: nat, n2: nat)
    requires
        n <= n2,
    ensures
        extensions_of(g, c, n).len() <= extensions_of(g, c, n2).len(),
    decreases n2,
{
    if n < n2 {
        lemma_extensions_of_grow(g, c, n, (n2 - 1) as nat);
    }
}

/// A longer prefix of the candidates gives no fewer candidates.
proof fn lemma_extensions_grow(gs: Seq<ClauseView>, c: ClauseView, m: nat, m2: nat)
    requires
        m <= m2,
    ensures
        extensions(gs, c, m).len() <= extensions(gs, c, m2).len(),
    decreases m2,
{
    if m < m2 {
        lemma_extensions_grow(gs, c, m, (m2 - 1) as nat);
    }
}

/// Once the bound is passed it stays passed.
proof fn lemma_over_bound_grow(start: int, cs: Seq<ClauseView>, n: nat, n2: nat)
    requires
        n <= n2,
        over_bound(start, cs, n),
    ensures
        over_bound(start, cs, n2),
    decreases n2,
{
    if n < n2 {
        lemma_over_bound_grow(start, cs, n, (n2 - 1) as nat);
    }
}

/// The candidates with the impossibilities of one more clause worked in;
/// none once the count of insertions passes [`MAX_COMPLEXITY`].
fn extend_candidates(gs: &Vec<Clause>, c: &Clause, complexity: usize, Ghost(cx): Ghost<int>) -> (r:
    Option<(Vec<Clause>, usize)>)
    requires
        all_wf(clause_views(gs@)),
        cx >= 0,
        complexity == capped(cx),
    ensures
        match r {
            Some((v, c2)) => {
                let next = extensions(clause_views(gs@), c@, gs@.len());
                &&& clause_views(v@) == next
                &&& !(next.len() > 0 && cx + next.len() > MAX_COMPLEXITY)
                &&& c2 == capped(cx + next.len())
                &&& all_wf(clause_views(v@))
            },
            None => {
                let next = extensions(clause_views(gs@), c@, gs@.len());
                next.len() > 0 && cx + next.len() > MAX_COMPLEXITY
            },
        },
{
    let ghost gv = clause_views(gs@);
    let literals = negated_literals(c);
    let ghost lv = literal_views(literals@);
    let mut r: Vec<Clause> = Vec::new();
    let mut count: usize = complexity;
    let mut m: usize = 0;
    assert(clause_views(r@) =~= extensions(gv, c@, 0));
    while m < gs.len()
        invariant
            m <= gs.len(),
            gv == clause_views(gs@),
            all_wf(gv),
            lv == literal_views(literals@),
            lv == literal_list(impossibilities(c@)),
            all_wf(clause_views(r@)),
            clause_views(r@) == extensions(gv, c@, m as nat),
            cx >= 0,
            count == capped(cx + r@.len()),
            r@.len() > 0 ==> cx + r@.len() <= MAX_COMPLEXITY,
        decreases gs.len() - m,
    {
        let g = &gs[m];
        assert(gv[m as int] == g@);
        let ghost base = clause_views(r@);
        let mut n: usize = 0;
        assert(base + extensions_of(g@, c@, 0) =~= base);
        while n < literals.len()
            invariant
                n <= literals.len(),
                m < gs.len(),
                gv == clause_views(gs@),
                gv[m as int] == g@,
                g.wf(),
                lv == literal_views(literals@),
                lv == literal_list(impossibilities(c@)),
                all_wf(clause_views(r@)),
                base == extensions(gv, c@, m as nat),
                clause_views(r@) == base + extensions_of(g@, c@, n as nat),
                cx >= 0,
                count == capped(cx + r@.len()),
                r@.len() > 0 ==> cx + r@.len() <= MAX_COMPLEXITY,
            decreases literals.len() - n,
        {
            let var = &literals[n].0;
            let a = &literals[n].1;
            assert(lv[n as int] == (var@, a@));
            let ghost before = clause_views(r@);
            if !is_conflict(g, var.as_str(), a) {
                let e = extend_candidate(g, c, var, a);
                r.push(e);
                assert(clause_views(r@) =~= before.push(e@));
                assert(before.push(e@) =~= base + extensions_of(g@, c@, (n + 1) as nat));
                assert forall|x: int| 0 <= x < clause_views(r@).len() implies poss_wf(
                    (#[trigger] clause_views(r@)[x]).possibilities,
                ) by {
                    if x < before.len() {
                        assert(clause_views(r@)[x] == before[x]);
                    }
                }
                if count >= MAX_COMPLEXITY {
                    proof {
                        lemma_extensions_of_grow(g@, c@, (n + 1) as nat, lv.len());
                        lemma_extensions_grow(gv, c@, (m + 1) as nat, gv.len());
                        assert(extensions(gv, c@, (m + 1) as nat).len() >= r@.len());
                    }
                    return None;
                }
                count = count + 1;
            } else {
                assert(before =~= base + extensions_of(g@, c@, (n + 1) as nat));
            }
            n += 1;
        }
        m += 1;
    }
    Some((r, count))
}

/// The negation of the conjunction of the clauses, as a conjunction of
/// clauses. Fails with "Complicated" where the budget does not suffice.
pub fn group_impossibilities(clauses: Vec<Clause>) -> (r: Result<Vec<Clause>, String>)
    requires
        clauses@.len() > 0,
        all_wf(clause_views(clauses@)),
    ensures
        match r {
            Ok(v) => grouped_impossibilities(clause_views(clauses@)) == Some(clause_views(v@))
                && all_wf(clause_views(v@)),
            Err(e) => grouped_impossibilities(clause_views(clauses@)) is None && e@
                == "Complicated"@,
        },
{
    let ghost cv = clause_views(clauses@);
    let total = clauses.len();
    let first = &clauses[total - 1];
    assert(cv.last() == first@);
    let mut candidates = seed_clauses(first);
    let ghost rest = cv.drop_last();
    if total == 1 || candidates.len() == 0 {
        return Ok(candidates);
    }
    let ghost start = candidates@.len() as int;
    let mut upper_bound: usize = candidates.len();
    let mut i: usize = 0;
    while i < total - 1
        invariant
            i <= total - 1,
            total == clauses.len(),
            cv == clause_views(clauses@),
            rest == cv.drop_last(),
            rest.len() == total - 1,
            start >= 1,
            start == seeds(cv.last()).len(),
            upper_bound == candidate_bound(start, rest, i as nat),
            i > 0 ==> upper_bound <= MAX_COMPLEXITY,
            !over_bound(start, rest, i as nat),
        decreases total - 1 - i,
    {
        let c = &clauses[i];
        assert(rest[i as int] == c@);
        let k = capped_literal_count(c);
        let ghost lc = literal_count(c@) as int;
        let ghost ub = upper_bound as int;
        assert(candidate_bound(start, rest, (i + 1) as nat) == ub * lc);
        if k == 0 || upper_bound == 0 {
            assert(ub * lc == 0) by (nonlinear_arith)
                requires
                    ub == 0 || lc == 0,
            ;
            upper_bound = 0;
        } else if upper_bound > MAX_COMPLEXITY || k > MAX_COMPLEXITY {
            assert(ub * lc > 20000) by (nonlinear_arith)
                requires
                    ub >= 1,
                    lc >= 1,
                    ub > 20000 || lc > 20000,
            ;
            proof {
                lemma_over_bound_grow(start, rest, (i + 1) as nat, rest.len());
            }
            return Err(String::from_str("Complicated"));
        } else {
            assert(ub * lc <= 20000 * 20000) by (nonlinear_arith)
                requires
                    0 <= ub <= 20000,
                    0 <= lc <= 20000,
            ;
            upper_bound = upper_bound * k;
            if upper_bound > MAX_COMPLEXITY {
                proof {
                    lemma_over_bound_grow(start, rest, (i + 1) as nat, rest.len());
                }
                return Err(String::from_str("Complicated"));
            }
        }
        i += 1;
    }
    let mut complexity: usize = if candidates.len() >= MAX_COMPLEXITY {
        MAX_COMPLEXITY + 1
    } else {
        candidates.len() + 1
    };
    let ghost mut cx: int = 1 + start;
    let mut left: usize = total - 1;
    assert(rest.take(left as int) =~= rest);
    while left > 0
        invariant
            left <= total - 1,
            total == clauses.len(),
            cv == clause_views(clauses@),
            rest == cv.drop_last(),
            all_wf(cv),
            all_wf(clause_views(candidates@)),
            cx >= 0,
            complexity == capped(cx),
            grouped_impossibilities(cv) == grouping(
                clause_views(candidates@),
                rest.take(left as int),
                cx,
            ),
        decreases left,
    {
        let c = &clauses[left - 1];
        proof {
            assert(rest.take(left as int).last() == c@);
            assert(rest.take(left as int).drop_last() =~= rest.take(left - 1));
        }
        match extend_candidates(&candidates, c, complexity, Ghost(cx)) {
            None => {
                return Err(String::from_str("Complicated"));
            },
            Some((next, count)) => {
                proof {
                    cx = cx + next@.len();
                }
                candidates = next;
                complexity = count;
            },
        }
        left -= 1;
    }
    Ok(candidates)
}

/// What negating a formula comes to.
pub enum Negation {
    /// The budget did not suffice.
    Complicated,
    /// Nothing can be said: the result is one wedge clause.
    Opaque,
    /// The negated formula.
    Formula(Seq<ClauseView>),
}

/// The clause is reconcilable.
pub open spec fn is_reconcilable() -> spec_fn(ClauseView) -> bool {
    |c: ClauseView| c.reconcilable
}

/// The negation of a formula: its reconcilable clauses are negated and
/// the result simplified. Where no clause is left, before or after, the
/// negation is opaque.
pub open spec fn negated(cs: Seq<ClauseView>) -> Negation {
    let active = keep(cs, is_reconcilable());
    if active.len() == 0 {
        Negation::Opaque
    } else {
        match grouped_impossibilities(active) {
            None => Negation::Complicated,
            Some(impossible) => {
                if impossible.len() == 0 {
                    Negation::Opaque
                } else if simplified(impossible).len() == 0 {
                    Negation::Opaque
                } else {
                    Negation::Formula(simplified(impossible))
                }
            },
        }
    }
}

/// The negation of the formula where something can be said of it, none
/// where it is opaque. Fails with "Complicated" where the budget does not
/// suffice.
pub fn try_negate_formula(clauses: Vec<Clause>) -> (r: Result<Option<Vec<Clause>>, String>)
    requires
        all_wf(clause_views(clauses@)),
    ensures
        match r {
            Ok(Some(v)) => negated(clause_views(clauses@)) == Negation::Formula(clause_views(v@))
                && all_wf(clause_views(v@)),
            Ok(None) => negated(clause_views(clauses@)) == Negation::Opaque,
            Err(e) => negated(clause_views(clauses@)) == Negation::Complicated && e@
                == "Complicated"@,
        },
{
    let ghost cv = clause_views(clauses@);
    let ghost f = is_reconcilable();
    let mut active: Vec<Clause> = Vec::new();
    let mut i: usize = 0;
    assert(cv.take(0) =~= Seq::<ClauseView>::empty());
    assert(clause_views(active@) =~= keep(cv.take(0), f));
    while i < clauses.len()
        invariant
            i <= clauses.len(),
            cv == clause_views(clauses@),
            f == is_reconcilable(),
            all_wf(cv),
            all_wf(clause_views(active@)),
            clause_views(active@) == keep(cv.take(i as int), f),
        decreases clauses.len() - i,
    {
        assert(cv[i as int] == clauses@[i as int]@);
        proof {
            lemma_keep_step(cv, f, i as int);
        }
        if clauses[i].reconcilable {
            let ghost before = clause_views(active@);
            active.push(clauses[i].clone());
            assert(clause_views(active@) =~= before.push(cv[i as int]));
            assert forall|x: int| 0 <= x < clause_views(active@).len() implies poss_wf(
                (#[trigger] clause_views(active@)[x]).possibilities,
            ) by {
                if x < before.len() {
                    assert(clause_views(active@)[x] == before[x]);
                }
            }
        }
        i += 1;
    }
    assert(cv.take(i as int) =~= cv);
    if active.len() == 0 {
        return Ok(None);
    }
    let impossible = match group_impossibilities(active) {
        Err(e) => {
            return Err(e);
        },
        Ok(v) => v,
    };
    if impossible.len() == 0 {
        return Ok(None);
    }
    let mut refs: Vec<&Clause> = Vec::new();
    let mut k: usize = 0;
    while k < impossible.len()
        invariant
            k <= impossible.len(),
            refs.len() == k,
            forall|j: int| 0 <= j < k ==> (#[trigger] refs@[j])@ == impossible@[j]@,
        decreases impossible.len() - k,
    {
        refs.push(&impossible[k]);
        k += 1;
    }
    assert(clause_ref_views(refs@) =~= clause_views(impossible@));
    let negated = simplify_cnf(refs);
    if negated.len() == 0 {
        return Ok(None);
    }
    Ok(Some(negated))
}

/// A number drawn by `rand`'s `Rng::gen` from the generator that
/// `rand::thread_rng` hands out for this thread. Nothing is claimed of
/// the number.
#[verifier::external_body]
fn random_id() -> usize {
    let mut rng = rand::thread_rng();
    rng.gen()
}

/// The one wedge clause that stands for an opaque negation.
pub fn opaque_negation(id: usize) -> (r: Vec<Clause>)
    ensures
        clause_views(r@) == seq![wedge_clause((id, id))],
        all_wf(clause_views(r@)),
{
    let possibilities: StrMap<Alternatives> = StrMap::new();
    proof {
        lemma_poss_map_wf(possibilities);
        assert(poss_view(possibilities.entries()) =~= Seq::<(Text, Seq<AssertionView>)>::empty());
    }
    let wedge = Clause::new(possibilities, (id, id), (id, id), Some(true), None, None, None);
    let mut r: Vec<Clause> = Vec::new();
    r.push(wedge);
    assert(clause_views(r@) =~= seq![wedge_clause((id, id))]);
    r
}

/// The negation of the formula, with `fallback_id` as the provenance of
/// the wedge clause that stands for an opaque negation.
pub fn negate_formula_with(clauses: Vec<Clause>, fallback_id: usize) -> (r: Result<
    Vec<Clause>,
    String,
>)
    requires
        all_wf(clause_views(clauses@)),
    ensures
        match r {
            Ok(v) => all_wf(clause_views(v@)) && match negated(clause_views(clauses@)) {
                Negation::Formula(f) => clause_views(v@) == f,
                Negation::Opaque => clause_views(v@) == seq![
                    wedge_clause((fallback_id, fallback_id)),
                ],
                Negation::Complicated => false,
            },
            Err(e) => negated(clause_views(clauses@)) == Negation::Complicated && e@
                == "Complicated"@,
        },
{
    match try_negate_formula(clauses) {
        Err(e) => Err(e),
        Ok(Some(v)) => Ok(v),
        Ok(None) => Ok(opaque_negation(fallback_id)),
    }
}

/// The negation of the formula. An opaque negation is one wedge clause
/// whose provenance is a fresh random number.
pub fn negate_formula(clauses: Vec<Clause>) -> (r: Result<Vec<Clause>, String>)
    requires
        all_wf(clause_views(clauses@)),
    ensures
        match r {
            Ok(v) => all_wf(clause_views(v@)) && match negated(clause_views(clauses@)) {
                Negation::Formula(f) => clause_views(v@) == f,
                Negation::Opaque => exists|n: usize|
                    clause_views(v@) == seq![#[trigger] wedge_clause((n, n))],
                Negation::Complicated => false,
            },
            Err(e) => negated(clause_views(clauses@)) == Negation::Complicated && e@
                == "Complicated"@,
        },
{
    match try_negate_formula(clauses) {
        Err(e) => Err(e),
        Ok(Some(v)) => Ok(v),
        Ok(None) => {
            let n = random_id();
            let v = opaque_negation(n);
            assert(clause_views(v@) == seq![wedge_clause((n, n))]);
            Ok(v)
        },
    }
}

/// Without a first candidate the bound on the candidates is zero.
proof fn lemma_candidate_bound_zero(cs: Seq<ClauseView>, n: nat)
    ensures
        candidate_bound(0, cs, n) == 0,
    decreases n,
{
    if n > 0 {
        lemma_candidate_bound_zero(cs, (n - 1) as nat);
        assert(0 * literal_count(cs[n - 1]) == 0) by (nonlinear_arith);
    }
}

/// The budget holds: a formula of several reconcilable clauses whose
/// impossibilities can be combined in more than [`MAX_COMPLEXITY`] ways
/// is not negated.
pub proof fn lemma_negation_budget(cs: Seq<ClauseView>)
    requires
        keep(cs, is_reconcilable()).len() > 1,
        candidate_bound(
            seeds(keep(cs, is_reconcilable()).last()).len() as int,
            keep(cs, is_reconcilable()).drop_last(),
            (keep(cs, is_reconcilable()).len() - 1) as nat,
        ) > MAX_COMPLEXITY,
    ensures
        negated(cs) == Negation::Complicated,
{
    let active = keep(cs, is_reconcilable());
    let rest = active.drop_last();
    if seeds(active.last()).len() == 0 {
        lemma_candidate_bound_zero(rest, rest.len());
    }
}

} // verus!
