//! Truths: what a formula says outright about single variables, and the
//! negation of such truths.
use crate::algebra::{clause_ref_views, is_unknown_var};
use crate::assertion::{is_negated_form, negation, Assertion, AssertionView};
use crate::clause::{assertion_views, texts, Clause, ClauseView};
use crate::str_map::{
    has_key, lemma_del, lemma_map_vals, lemma_map_vals_del, lemma_map_vals_put,
    lemma_put_after_del, map_vals, put, value_of, NameSet, StrMap,
};
use crate::text::{starts_with_char, str_same, text_lt, Text};
use std::collections::HashMap;
use vstd::prelude::*;

verus! {

broadcast use vstd::std_specs::hash::group_hash_axioms;

/// For each variable, groups of assertions: all groups hold, and of each
/// group at least one assertion.
pub type TruthsView = Seq<(Text, Seq<Seq<AssertionView>>)>;

/// For each variable, the groups that stem from the condition under
/// analysis, by their position among the variable's groups.
pub type ActiveView = Seq<(Text, Map<usize, Seq<AssertionView>>)>;

/// The truths of a variable, as stored.
pub type Groups = Vec<Vec<Assertion>>;

/// The values of a list of groups.
pub open spec fn groups_view(g: Seq<Vec<Assertion>>) -> Seq<Seq<AssertionView>> {
    g.map_values(|x: Vec<Assertion>| assertion_views(x@))
}

/// The function that gives the value of a variable's groups.
pub open spec fn groups_fn() -> spec_fn(Groups) -> Seq<Seq<AssertionView>> {
    |g: Groups| groups_view(g@)
}

/// The value of a map of truths.
pub open spec fn truths_view(e: Seq<(Text, Groups)>) -> TruthsView {
    map_vals(e, groups_fn())
}

/// The function that gives the value of a variable's active groups.
pub open spec fn active_fn() -> spec_fn(HashMap<usize, Vec<Assertion>>) -> Map<
    usize,
    Seq<AssertionView>,
> {
    |m: HashMap<usize, Vec<Assertion>>| m@.map_values(|v: Vec<Assertion>| assertion_views(v@))
}

/// The value of a map of active truths.
pub open spec fn active_view(e: Seq<(Text, HashMap<usize, Vec<Assertion>>)>) -> ActiveView {
    map_vals(e, active_fn())
}

/// The negation of one variable's truths. Several groups of one assertion
/// each become one group of the negated assertions; one group becomes one
/// group for each of its assertions, negated.
pub open spec fn negated_groups(groups: Seq<Seq<AssertionView>>) -> Seq<Seq<AssertionView>> {
    if groups.len() > 1 {
        seq![groups.map_values(|g: Seq<AssertionView>| negation(g[0]))]
    } else {
        groups[0].map_values(|a: AssertionView| seq![negation(a)])
    }
}

/// Several groups of which one offers several assertions: their negation
/// cannot be written as groups.
pub open spec fn ambiguous(groups: Seq<Seq<AssertionView>>) -> bool {
    groups.len() > 1 && exists|i: int| 0 <= i < groups.len() && (#[trigger] groups[i]).len() > 1
}

/// The negation of the truths from variable `i` on. The first variable
/// whose truths are ambiguous ends it: neither that variable nor any after
/// it has an entry.
pub open spec fn negated_from(t: TruthsView, i: int) -> TruthsView
    decreases t.len() - i,
{
    if i < 0 || i >= t.len() {
        Seq::empty()
    } else if ambiguous(t[i].1) {
        Seq::empty()
    } else {
        seq![(t[i].0, negated_groups(t[i].1))] + negated_from(t, i + 1)
    }
}

/// The negation of the truths.
pub open spec fn negated_types(t: TruthsView) -> TruthsView {
    negated_from(t, 0)
}

/// Every variable has a group, and a variable with several groups has no
/// empty group.
pub open spec fn truths_wf(t: TruthsView) -> bool {
    forall|i: int|
        0 <= i < t.len() ==> (#[trigger] t[i]).1.len() >= 1 && (t[i].1.len() > 1 ==> forall|j: int|
            0 <= j < t[i].1.len() ==> (#[trigger] t[i].1[j]).len() >= 1)
}

/// The negation of one variable's truths; none where it is ambiguous.
fn negate_groups(groups: &Groups) -> (r: Option<Groups>)
    requires
        groups@.len() >= 1,
        groups@.len() > 1 ==> forall|j: int|
            0 <= j < groups@.len() ==> (#[trigger] groups_view(groups@)[j]).len() >= 1,
    ensures
        match r {
            Some(g) => !ambiguous(groups_view(groups@)) && groups_view(g@) == negated_groups(
                groups_view(groups@),
            ),
            None => ambiguous(groups_view(groups@)),
        },
{
    let ghost gv = groups_view(groups@);
    if groups.len() > 1 {
        let mut negated: Vec<Assertion> = Vec::new();
        let mut i: usize = 0;
        while i < groups.len()
            invariant
                i <= groups.len(),
                gv == groups_view(groups@),
                groups@.len() > 1,
                forall|j: int| 0 <= j < gv.len() ==> (#[trigger] gv[j]).len() >= 1,
                forall|j: int| 0 <= j < i ==> (#[trigger] gv[j]).len() == 1,
                negated.len() == i,
                forall|j: int| 0 <= j < i ==> (#[trigger] negated@[j])@ == negation(gv[j][0]),
            decreases groups.len() - i,
        {
            let group = &groups[i];
            assert(gv[i as int] == assertion_views(group@));
            if group.len() > 1 {
                return None;
            }
            negated.push(group[0].get_negation());
            i += 1;
        }
        let mut r: Groups = Vec::new();
        r.push(negated);
        assert(groups_view(r@) =~= negated_groups(gv)) by {
            assert(assertion_views(negated@) =~= gv.map_values(
                |g: Seq<AssertionView>| negation(g[0]),
            ));
        }
        Some(r)
    } else {
        let group = &groups[0];
        assert(gv[0] == assertion_views(group@));
        let mut r: Groups = Vec::new();
        let mut i: usize = 0;
        while i < group.len()
            invariant
                i <= group.len(),
                r.len() == i,
                forall|j: int|
                    0 <= j < i ==> assertion_views((#[trigger] r@[j])@) == seq![
                        negation(group@[j]@),
                    ],
            decreases group.len() - i,
        {
            let mut single: Vec<Assertion> = Vec::new();
            single.push(group[i].get_negation());
            assert(assertion_views(single@) =~= seq![negation(group@[i as int]@)]);
            r.push(single);
            i += 1;
        }
        assert(groups_view(r@) =~= negated_groups(gv));
        Some(r)
    }
}

/// Negates the truths, variable by variable in order of the names. Of a
/// variable with several groups of one assertion each, the negations of
/// these make its one group; of a variable with one group, the negation of
/// each of its assertions makes a group. The first variable with several
/// groups of which one offers several assertions ends the negation:
/// neither it nor any later variable has an entry.
pub fn negate_types(all_types: StrMap<Groups>) -> (r: StrMap<Groups>)
    requires
        all_types.wf(),
        truths_wf(truths_view(all_types.entries())),
    ensures
        r.wf(),
        truths_view(r.entries()) == negated_types(truths_view(all_types.entries())),
{
    let ghost t = truths_view(all_types.entries());
    let mut r: StrMap<Groups> = StrMap::new();
    let mut i: usize = 0;
    assert(truths_view(r.entries()) =~= Seq::<(Text, Seq<Seq<AssertionView>>)>::empty());
    assert(truths_view(r.entries()) + negated_from(t, 0) =~= negated_from(t, 0));
    while i < all_types.len()
        invariant
            i <= all_types.entries().len(),
            t == truths_view(all_types.entries()),
            t.len() == all_types.entries().len(),
            all_types.wf(),
            truths_wf(t),
            r.wf(),
            r.entries().len() == i,
            forall|j: int| 0 <= j < i ==> (#[trigger] r.entries()[j]).0 == t[j].0,
            negated_types(t) == truths_view(r.entries()) + negated_from(t, i as int),
        decreases all_types.entries().len() - i,
    {
        let var = all_types.key_at(i);
        let groups = all_types.value_at(i);
        assert(t[i as int].0 == var@);
        assert(t[i as int].1 == groups_view(groups@));
        let negated = negate_groups(groups);
        let ghost before = truths_view(r.entries());
        match negated {
            None => {
                assert(before + negated_from(t, i as int) =~= before);
                return r;
            },
            Some(g) => {
                proof {
                    assert forall|j: int| 0 <= j < r.entries().len() implies text_lt(
                        (#[trigger] r.entries()[j]).0,
                        var@,
                    ) by {
                        assert(all_types.entries()[j].0 == t[j].0);
                        assert(text_lt(all_types.entries()[j].0, all_types.entries()[i as int].0));
                    }
                }
                r.append(var.clone(), g);
                assert(truths_view(r.entries()) =~= before.push((var@, negated_groups(t[i as int].1))));
                assert(before + negated_from(t, i as int) =~= before.push(
                    (var@, negated_groups(t[i as int].1)),
                ) + negated_from(t, i as int + 1));
            },
        }
        i += 1;
    }
    assert(truths_view(r.entries()) + negated_from(t, i as int) =~= truths_view(r.entries()));
    r
}

/// What has been extracted from a formula so far.
pub struct Extraction {
    /// The truths of each variable.
    pub truths: TruthsView,
    /// Those of them that stem from the condition under analysis.
    pub active: ActiveView,
    /// The variables that the condition still refers to.
    pub referenced: Set<Text>,
}

/// Something can be said from the alternatives together: there is one,
/// and each is `Falsy` or not the negated member of its pair.
pub open spec fn sayable(alts: Seq<AssertionView>) -> bool {
    alts.len() > 0 && forall|k: int|
        0 <= k < alts.len() ==> (#[trigger] alts[k]) is Falsy || !is_negated_form(alts[k])
}

/// The clause was made before `var` was assigned anew.
pub open spec fn is_redefined(c: ClauseView, var: Text) -> bool {
    c.redefined_vars is Some && c.redefined_vars->0.contains(var)
}

/// The active truths with the group at `index` of `var` noted, where the
/// clause stems from the condition under analysis.
pub open spec fn noted(
    active: ActiveView,
    c: ClauseView,
    creating_conditional_id: Option<(usize, usize)>,
    var: Text,
    index: usize,
    group: Seq<AssertionView>,
) -> ActiveView {
    if creating_conditional_id == Some(c.creating_conditional_id) {
        let known = if has_key(active, var) {
            value_of(active, var)
        } else {
            Map::empty()
        };
        put(active, var, known.insert(index, group))
    } else {
        active
    }
}

/// What one more clause adds. Only a reconcilable clause of one variable
/// with a proper name adds anything. One alternative is a truth of its
/// own: a further group of the variable, or its only group where the
/// clause precedes a new assignment of the variable. Several alternatives
/// are a truth where they are sayable: then they are the variable's only
/// group, and a generated clause takes the variable out of the referenced
/// ones.
pub open spec fn absorbed(
    st: Extraction,
    c: ClauseView,
    creating_conditional_id: Option<(usize, usize)>,
) -> Extraction {
    if !c.reconcilable || c.possibilities.len() != 1 {
        st
    } else {
        let var = c.possibilities[0].0;
        let alts = c.possibilities[0].1;
        if is_unknown_var(var) {
            st
        } else if alts.len() == 1 {
            let groups = if !is_redefined(c, var) && has_key(st.truths, var) {
                value_of(st.truths, var).push(alts)
            } else {
                seq![alts]
            };
            Extraction {
                truths: put(st.truths, var, groups),
                active: noted(
                    st.active,
                    c,
                    creating_conditional_id,
                    var,
                    (groups.len() - 1) as usize,
                    alts,
                ),
                referenced: st.referenced,
            }
        } else if sayable(alts) {
            Extraction {
                truths: put(st.truths, var, seq![alts]),
                active: noted(st.active, c, creating_conditional_id, var, 0, alts),
                referenced: if c.generated {
                    st.referenced.remove(var)
                } else {
                    st.referenced
                },
            }
        } else {
            st
        }
    }
}

/// What the first `n` clauses of the formula add up to.
pub open spec fn extracted(
    cs: Seq<ClauseView>,
    n: nat,
    creating_conditional_id: Option<(usize, usize)>,
    referenced: Set<Text>,
) -> Extraction
    decreases n,
{
    if n == 0 {
        Extraction { truths: Seq::empty(), active: Seq::empty(), referenced }
    } else {
        absorbed(
            extracted(cs, (n - 1) as nat, creating_conditional_id, referenced),
            cs[n - 1],
            creating_conditional_id,
        )
    }
}

/// A copy of the alternatives as a list.
fn alternatives_list(alts: &crate::assertion::Alternatives) -> (r: Vec<Assertion>)
    ensures
        assertion_views(r@) == alts@,
{
    let mut r: Vec<Assertion> = Vec::new();
    let mut i: usize = 0;
    while i < alts.len()
        invariant
            i <= alts@.len(),
            r.len() == i,
            forall|j: int| 0 <= j < i ==> (#[trigger] r@[j])@ == alts@[j],
        decreases alts@.len() - i,
    {
        r.push(alts.get(i).clone());
        i += 1;
    }
    assert(assertion_views(r@) =~= alts@);
    r
}

/// A copy of a list of assertions.
fn clone_assertions(v: &Vec<Assertion>) -> (r: Vec<Assertion>)
    ensures
        assertion_views(r@) == assertion_views(v@),
{
    let mut r: Vec<Assertion> = Vec::new();
    let mut i: usize = 0;
    while i < v.len()
        invariant
            i <= v.len(),
            r.len() == i,
            forall|j: int| 0 <= j < i ==> (#[trigger] r@[j])@ == v@[j]@,
        decreases v.len() - i,
    {
        r.push(v[i].clone());
        i += 1;
    }
    assert(assertion_views(r@) =~= assertion_views(v@));
    r
}

/// True when something can be said from the alternatives together.
fn is_sayable(alts: &crate::assertion::Alternatives) -> (r: bool)
    ensures
        r == sayable(alts@),
{
    if alts.len() == 0 {
        return false;
    }
    let mut i: usize = 0;
    while i < alts.len()
        invariant
            i <= alts@.len(),
            forall|k: int|
                0 <= k < i ==> (#[trigger] alts@[k]) is Falsy || !is_negated_form(alts@[k]),
        decreases alts@.len() - i,
    {
        let a = alts.get(i);
        let falsy = match a {
            Assertion::Falsy => true,
            _ => false,
        };
        if !(falsy || !a.has_negation()) {
            return false;
        }
        i += 1;
    }
    true
}

/// True when the clause was made before `var` was assigned anew.
fn redefines(c: &Clause, var: &str) -> (r: bool)
    ensures
        r == is_redefined(c@, var@),
{
    match &c.redefined_vars {
        None => false,
        Some(names) => {
            let mut i: usize = 0;
            while i < names.len()
                invariant
                    i <= names.len(),
                    c.redefined_vars == Some(*names),
                    forall|j: int| 0 <= j < i ==> texts(names@)[j] != var@,
                decreases names.len() - i,
            {
                if str_same(names[i].as_str(), var) {
                    assert(texts(names@)[i as int] == var@);
                    return true;
                }
                i += 1;
            }
            false
        },
    }
}

/// Notes the group at `index` of `var` among the active truths, where the
/// clause stems from the condition under analysis.
fn note_active(
    active: &mut StrMap<HashMap<usize, Vec<Assertion>>>,
    c: &Clause,
    creating_conditional_id: Option<(usize, usize)>,
    var: &String,
    index: usize,
    group: Vec<Assertion>,
)
    requires
        old(active).wf(),
    ensures
        final(active).wf(),
        active_view(final(active).entries()) == noted(
            active_view(old(active).entries()),
            c@,
            creating_conditional_id,
            var@,
            index,
            assertion_views(group@),
        ),
{
    let stems = match creating_conditional_id {
        Some(id) => id.0 == c.creating_conditional_id.0 && id.1 == c.creating_conditional_id.1,
        None => false,
    };
    if stems {
        let ghost e0 = active.entries();
        proof {
            lemma_map_vals(e0, active_fn());
            lemma_map_vals_del(e0, active_fn(), var@);
            lemma_del(e0, var@);
        }
        let mut known = match active.remove(var.as_str()) {
            Some(m) => m,
            None => HashMap::new(),
        };
        let ghost kv = active_fn()(known);
        assert(kv =~= if has_key(active_view(e0), var@) {
            value_of(active_view(e0), var@)
        } else {
            Map::empty()
        });
        known.insert(index, group);
        assert(active_fn()(known) =~= kv.insert(index, assertion_views(group@)));
        proof {
            lemma_map_vals_put(active.entries(), active_fn(), var@, known);
            lemma_put_after_del(active_view(e0), var@, active_fn()(known));
        }
        active.insert(var.clone(), known);
    }
}

/// Extracts from a formula what it says outright about single variables.
/// The first result holds the truths of each variable; the second those
/// groups of them that stem from the condition `creating_conditional_id`,
/// by their position. Variables that a generated clause explains in full
/// leave `cond_referenced_var_ids`.
pub fn get_truths_from_formula(
    clauses: Vec<&Clause>,
    creating_conditional_id: Option<(usize, usize)>,
    cond_referenced_var_ids: &mut NameSet,
) -> (r: (StrMap<Groups>, StrMap<HashMap<usize, Vec<Assertion>>>))
    requires
        old(cond_referenced_var_ids).wf(),
    ensures
        final(cond_referenced_var_ids).wf(),
        r.0.wf(),
        r.1.wf(),
        (Extraction {
            truths: truths_view(r.0.entries()),
            active: active_view(r.1.entries()),
            referenced: final(cond_referenced_var_ids)@,
        }) == extracted(
            clause_ref_views(clauses@),
            clauses@.len(),
            creating_conditional_id,
            old(cond_referenced_var_ids)@,
        ),
{
    let ghost cv = clause_ref_views(clauses@);
    let ghost start = cond_referenced_var_ids@;
    let mut truths: StrMap<Groups> = StrMap::new();
    let mut active: StrMap<HashMap<usize, Vec<Assertion>>> = StrMap::new();
    assert(truths_view(truths.entries()) =~= Seq::<(Text, Seq<Seq<AssertionView>>)>::empty());
    assert(active_view(active.entries()) =~= Seq::<
        (Text, Map<usize, Seq<AssertionView>>),
    >::empty());
    let mut i: usize = 0;
    while i < clauses.len()
        invariant
            i <= clauses.len(),
            cv == clause_ref_views(clauses@),
            truths.wf(),
            active.wf(),
            cond_referenced_var_ids.wf(),
            (Extraction {
                truths: truths_view(truths.entries()),
                active: active_view(active.entries()),
                referenced: cond_referenced_var_ids@,
            }) == extracted(cv, i as nat, creating_conditional_id, start),
        decreases clauses.len() - i,
    {
        let clause = clauses[i];
        assert(cv[i as int] == clause@);
        let ghost st = extracted(cv, i as nat, creating_conditional_id, start);
        if clause.reconcilable && clause.possibilities.len() == 1 {
            let var = clause.possibilities.key_at(0);
            let alts = clause.possibilities.value_at(0);
            assert(clause@.possibilities[0].0 == var@);
            assert(clause@.possibilities[0].1 == alts@);
            if !starts_with_char(var.as_str(), '*') {
                if alts.len() == 1 {
                    let group = alternatives_list(alts);
                    let ghost e0 = truths.entries();
                    proof {
                        lemma_map_vals(e0, groups_fn());
                        lemma_map_vals_del(e0, groups_fn(), var@);
                        lemma_del(e0, var@);
                    }
                    let mut groups: Groups = if redefines(clause, var.as_str()) {
                        Vec::new()
                    } else {
                        match truths.remove(var.as_str()) {
                            Some(g) => g,
                            None => Vec::new(),
                        }
                    };
                    let ghost known = groups_view(groups@);
                    groups.push(clone_assertions(&group));
                    assert(groups_view(groups@) =~= known.push(alts@));
                    let index = groups.len() - 1;
                    proof {
                        lemma_map_vals_put(truths.entries(), groups_fn(), var@, groups);
                        lemma_put_after_del(truths_view(e0), var@, groups_view(groups@));
                        assert(known.push(alts@) =~= if !is_redefined(clause@, var@) && has_key(
                            st.truths,
                            var@,
                        ) {
                            value_of(st.truths, var@).push(alts@)
                        } else {
                            seq![alts@]
                        });
                    }
                    truths.insert(var.clone(), groups);
                    note_active(&mut active, clause, creating_conditional_id, var, index, group);
                } else if is_sayable(alts) {
                    if clause.generated {
                        cond_referenced_var_ids.remove(var.as_str());
                    }
                    let group = alternatives_list(alts);
                    let mut groups: Groups = Vec::new();
                    groups.push(clone_assertions(&group));
                    assert(groups_view(groups@) =~= seq![alts@]);
                    proof {
                        lemma_map_vals_put(truths.entries(), groups_fn(), var@, groups);
                    }
                    truths.insert(var.clone(), groups);
                    note_active(&mut active, clause, creating_conditional_id, var, 0, group);
                }
            }
        }
        i += 1;
    }
    (truths, active)
}

} // verus!
