//! Clauses: one disjunction of (variable, assertion) literals, with the
//! flags and provenance that the algebra reads.
use crate::assertion::{negation, Alternatives, Assertion, AssertionView};
use crate::seq_set::{lemma_subset_len, same_items, subset};
use crate::str_map::{
    del, has_key, index_of_key, lemma_del, lemma_index_unique, lemma_map_vals,
    lemma_map_vals_del, lemma_map_vals_put, lemma_put, lemma_same_keys, map_vals, put, sorted,
    value_of, StrMap,
};
use crate::text::Text;
use vstd::prelude::*;

verus! {

/// For each variable, in order of the names, the alternatives offered.
pub type PossView = Seq<(Text, Seq<AssertionView>)>;

/// The mathematical value of a [`Clause`].
pub struct ClauseView {
    pub possibilities: PossView,
    pub creating_conditional_id: (usize, usize),
    pub creating_object_id: (usize, usize),
    pub wedge: bool,
    pub reconcilable: bool,
    pub generated: bool,
    pub redefined_vars: Option<Seq<Text>>,
}

/// What makes two clauses the same clause. A wedge, or a clause that is
/// not reconcilable, is known by its provenance; any other clause by its
/// literals.
pub enum ClauseKey {
    Opaque { object_id: (usize, usize), wedge: bool },
    Literals(Map<Text, Set<AssertionView>>),
}

/// One disjunction of literals. A clause keeps no hash of itself: whether
/// two clauses are the same clause is decided by `same_as`, which reads
/// their flags, provenance and literals each time.
#[derive(Debug)]
pub struct Clause {
    pub creating_conditional_id: (usize, usize),
    pub creating_object_id: (usize, usize),
    pub possibilities: StrMap<Alternatives>,
    pub wedge: bool,
    pub reconcilable: bool,
    pub generated: bool,
    pub redefined_vars: Option<Vec<String>>,
}

/// The value of a set of alternatives.
pub open spec fn alt_view() -> spec_fn(Alternatives) -> Seq<AssertionView> {
    |a: Alternatives| a@
}

/// The value of a map of possibilities.
pub open spec fn poss_view(e: Seq<(Text, Alternatives)>) -> PossView {
    map_vals(e, alt_view())
}

/// The texts of a list of names.
pub open spec fn texts(v: Seq<String>) -> Seq<Text> {
    v.map_values(|s: String| s@)
}

/// Possibilities are valid when the variables strictly increase and no
/// variable lists an alternative twice.
pub open spec fn poss_wf(p: PossView) -> bool {
    &&& sorted(p)
    &&& forall|i: int| 0 <= i < p.len() ==> (#[trigger] p[i]).1.no_duplicates()
}

/// The same, of the map that holds them.
pub open spec fn poss_map_wf(m: StrMap<Alternatives>) -> bool {
    &&& m.wf()
    &&& forall|i: int| 0 <= i < m.entries().len() ==> (#[trigger] m.entries()[i]).1.wf()
}

/// A map of possibilities is valid exactly when its value is.
pub proof fn lemma_poss_map_wf(m: StrMap<Alternatives>)
    ensures
        poss_map_wf(m) == poss_wf(poss_view(m.entries())),
        poss_view(m.entries()).len() == m.entries().len(),
{
    let e = m.entries();
    let p = poss_view(e);
    lemma_map_vals(e, alt_view());
    if poss_map_wf(m) {
        assert forall|i: int| 0 <= i < p.len() implies (#[trigger] p[i]).1.no_duplicates() by {
            assert(e[i].1.wf());
        }
    }
    if poss_wf(p) {
        assert forall|i: int| 0 <= i < e.len() implies (#[trigger] e[i]).1.wf() by {
            assert(p[i].1.no_duplicates());
        }
    }
}

impl View for Clause {
    type V = ClauseView;

    open spec fn view(&self) -> ClauseView {
        ClauseView {
            possibilities: poss_view(self.possibilities.entries()),
            creating_conditional_id: self.creating_conditional_id,
            creating_object_id: self.creating_object_id,
            wedge: self.wedge,
            reconcilable: self.reconcilable,
            generated: self.generated,
            redefined_vars: match self.redefined_vars {
                None => None,
                Some(v) => Some(texts(v@)),
            },
        }
    }
}

/// The clause that `Clause::new` makes: a flag that is not given is false
/// for `wedge` and `generated`, true for `reconcilable`.
pub open spec fn new_clause(
    possibilities: PossView,
    creating_conditional_id: (usize, usize),
    creating_object_id: (usize, usize),
    wedge: Option<bool>,
    reconcilable: Option<bool>,
    generated: Option<bool>,
    redefined_vars: Option<Seq<Text>>,
) -> ClauseView {
    ClauseView {
        possibilities,
        creating_conditional_id,
        creating_object_id,
        wedge: match wedge {
            Some(w) => w,
            None => false,
        },
        reconcilable: match reconcilable {
            Some(r) => r,
            None => true,
        },
        generated: match generated {
            Some(g) => g,
            None => false,
        },
        redefined_vars,
    }
}

/// The wedge clause of the given provenance.
pub open spec fn wedge_clause(id: (usize, usize)) -> ClauseView {
    new_clause(Seq::empty(), id, id, Some(true), None, None, None)
}

/// The clause without the variable `var`; none if no variable is left.
pub open spec fn without_var(c: ClauseView, var: Text) -> Option<ClauseView> {
    let p = del(c.possibilities, var);
    if p.len() == 0 {
        None
    } else {
        Some(
            new_clause(p, c.creating_conditional_id, c.creating_object_id, None, None, None, None),
        )
    }
}

/// The clause with the alternatives of `var` set to `alts`.
pub open spec fn with_var(c: ClauseView, var: Text, alts: Seq<AssertionView>) -> ClauseView {
    new_clause(
        put(c.possibilities, var, alts),
        c.creating_conditional_id,
        c.creating_object_id,
        Some(false),
        Some(c.reconcilable),
        Some(c.generated),
        None,
    )
}

/// Every literal of `o` is a literal of `c`: whenever `o` holds, `c` holds.
pub open spec fn covers(c: ClauseView, o: ClauseView) -> bool {
    &&& o.possibilities.len() <= c.possibilities.len()
    &&& forall|i: int|
        0 <= i < o.possibilities.len() ==> has_key(
            c.possibilities,
            (#[trigger] o.possibilities[i]).0,
        ) && subset(o.possibilities[i].1, value_of(c.possibilities, o.possibilities[i].0))
}

/// The negations of a list of alternatives.
pub open spec fn negations(alts: Seq<AssertionView>) -> Seq<AssertionView> {
    alts.map_values(|a: AssertionView| negation(a))
}

/// For each variable of the clause, the negation of each of its alternatives.
pub open spec fn impossibilities(c: ClauseView) -> PossView {
    map_vals(c.possibilities, |alts: Seq<AssertionView>| negations(alts))
}

/// The literals as a map from variables to sets of alternatives.
pub open spec fn literals(p: PossView) -> Map<Text, Set<AssertionView>> {
    Map::new(|k: Text| has_key(p, k), |k: Text| value_of(p, k).to_set())
}

/// What makes a clause the clause it is.
pub open spec fn clause_key(c: ClauseView) -> ClauseKey {
    if c.wedge || !c.reconcilable {
        ClauseKey::Opaque { object_id: c.creating_object_id, wedge: c.wedge }
    } else {
        ClauseKey::Literals(literals(c.possibilities))
    }
}

/// Two clauses are the same clause.
pub open spec fn same_clause(a: ClauseView, b: ClauseView) -> bool {
    clause_key(a) == clause_key(b)
}

/// Both possibilities name the same variables with the same alternatives.
pub open spec fn same_literals(p: PossView, q: PossView) -> bool {
    &&& p.len() == q.len()
    &&& forall|i: int|
        0 <= i < p.len() ==> (#[trigger] p[i]).0 == q[i].0 && same_items(p[i].1, q[i].1)
}

/// Sorted possibilities have equal literal maps exactly when they name the
/// same variables, each with the same alternatives.
pub proof fn lemma_same_literals(p: PossView, q: PossView)
    requires
        sorted(p),
        sorted(q),
    ensures
        (literals(p) == literals(q)) == same_literals(p, q),
{
    if literals(p) == literals(q) {
        assert forall|k: Text| has_key(p, k) == has_key(q, k) by {
            assert(literals(p).dom().contains(k) == has_key(p, k));
            assert(literals(q).dom().contains(k) == has_key(q, k));
        }
        lemma_same_keys(p, q);
        assert forall|i: int| 0 <= i < p.len() implies (#[trigger] p[i]).0 == q[i].0 && same_items(
            p[i].1,
            q[i].1,
        ) by {
            lemma_index_unique(p, i);
            lemma_index_unique(q, i);
            let k = p[i].0;
            assert(literals(p)[k] == p[i].1.to_set());
            assert(literals(q)[k] == q[i].1.to_set());
            assert forall|j: int| 0 <= j < p[i].1.len() implies q[i].1.contains(
                #[trigger] p[i].1[j],
            ) by {
                assert(p[i].1.to_set().contains(p[i].1[j]));
            }
            assert forall|j: int| 0 <= j < q[i].1.len() implies p[i].1.contains(
                #[trigger] q[i].1[j],
            ) by {
                assert(q[i].1.to_set().contains(q[i].1[j]));
            }
        }
    }
    if same_literals(p, q) {
        assert forall|k: Text| has_key(p, k) == has_key(q, k) by {
            if has_key(p, k) {
                let i = index_of_key(p, k);
                assert(q[i].0 == k);
            }
            if has_key(q, k) {
                let i = index_of_key(q, k);
                assert(p[i].0 == k);
            }
        }
        assert forall|k: Text| has_key(p, k) implies value_of(p, k).to_set() == value_of(
            q,
            k,
        ).to_set() by {
            let i = index_of_key(p, k);
            lemma_index_unique(p, i);
            assert(q[i].0 == k);
            lemma_index_unique(q, i);
            assert forall|x: AssertionView| p[i].1.to_set().contains(x) == q[i].1.to_set().contains(
                x,
            ) by {
                if p[i].1.contains(x) {
                    let j = p[i].1.index_of(x);
                    assert(q[i].1.contains(p[i].1[j]));
                }
                if q[i].1.contains(x) {
                    let j = q[i].1.index_of(x);
                    assert(p[i].1.contains(q[i].1[j]));
                }
            }
            assert(p[i].1.to_set() =~= q[i].1.to_set());
        }
        assert(literals(p) =~= literals(q));
    }
}

/// A copy of a map of possibilities.
pub fn clone_possibilities(m: &StrMap<Alternatives>) -> (r: StrMap<Alternatives>)
    ensures
        poss_view(r.entries()) == poss_view(m.entries()),
        r.entries().len() == m.entries().len(),
{
    let r = m.clone();
    assert(poss_view(r.entries()) =~= poss_view(m.entries()));
    r
}

/// A copy of a list of names.
pub fn clone_names(v: &Vec<String>) -> (r: Vec<String>)
    ensures
        texts(r@) == texts(v@),
{
    let mut r: Vec<String> = Vec::new();
    let mut i: usize = 0;
    while i < v.len()
        invariant
            i <= v.len(),
            r.len() == i,
            forall|j: int| 0 <= j < i ==> r@[j]@ == v@[j]@,
        decreases v.len() - i,
    {
        r.push(v[i].clone());
        i += 1;
    }
    assert(texts(r@) =~= texts(v@));
    r
}

impl Clone for Clause {
    fn clone(&self) -> (r: Self)
        ensures
            r@ == self@,
    {
        Clause {
            creating_conditional_id: self.creating_conditional_id,
            creating_object_id: self.creating_object_id,
            possibilities: clone_possibilities(&self.possibilities),
            wedge: self.wedge,
            reconcilable: self.reconcilable,
            generated: self.generated,
            redefined_vars: match &self.redefined_vars {
                None => None,
                Some(v) => Some(clone_names(v)),
            },
        }
    }
}

impl Clause {
    /// The representation invariant: the possibilities are valid.
    pub open spec fn wf(&self) -> bool {
        poss_wf(self@.possibilities)
    }

    /// A clause with the given possibilities and provenance. A flag that is
    /// not given is false for `wedge` and `generated`, true for
    /// `reconcilable`.
    pub fn new(
        possibilities: StrMap<Alternatives>,
        creating_conditional_id: (usize, usize),
        creating_object_id: (usize, usize),
        wedge: Option<bool>,
        reconcilable: Option<bool>,
        generated: Option<bool>,
        redefined_vars: Option<Vec<String>>,
    ) -> (c: Clause)
        ensures
            c@ == new_clause(
                poss_view(possibilities.entries()),
                creating_conditional_id,
                creating_object_id,
                wedge,
                reconcilable,
                generated,
                match redefined_vars {
                    None => None,
                    Some(v) => Some(texts(v@)),
                },
            ),
            c.possibilities == possibilities,
    {
        Clause {
            creating_conditional_id,
            creating_object_id,
            possibilities,
            wedge: match wedge {
                Some(w) => w,
                None => false,
            },
            reconcilable: match reconcilable {
                Some(r) => r,
                None => true,
            },
            generated: match generated {
                Some(g) => g,
                None => false,
            },
            redefined_vars,
        }
    }

    /// The clause without the variable `var_id`; none if no variable is left.
    pub fn remove_possibilities(&self, var_id: &str) -> (r: Option<Clause>)
        requires
            self.wf(),
        ensures
            match r {
                Some(c) => without_var(self@, var_id@) == Some(c@) && c.wf(),
                None => without_var(self@, var_id@) is None,
            },
    {
        proof {
            lemma_poss_map_wf(self.possibilities);
            lemma_map_vals_del(self.possibilities.entries(), alt_view(), var_id@);
            lemma_del(self@.possibilities, var_id@);
        }
        let mut possibilities = clone_possibilities(&self.possibilities);
        proof {
            lemma_poss_map_wf(possibilities);
            lemma_map_vals_del(possibilities.entries(), alt_view(), var_id@);
        }
        possibilities.remove(var_id);
        proof {
            lemma_poss_map_wf(possibilities);
        }
        if possibilities.len() == 0 {
            return None;
        }
        let c = Clause::new(
            possibilities,
            self.creating_conditional_id,
            self.creating_object_id,
            None,
            None,
            None,
            None,
        );
        proof {
            let p = del(self@.possibilities, var_id@);
            assert forall|i: int| 0 <= i < p.len() implies (#[trigger] p[i]).1.no_duplicates() by {
                if has_key(self@.possibilities, var_id@) {
                    let x = index_of_key(self@.possibilities, var_id@);
                    let i2 = if i < x { i } else { i + 1 };
                    assert(p[i] == self@.possibilities[i2]);
                }
            }
        }
        Some(c)
    }

    /// The clause with the alternatives of `var_id` set to `new_possibility`.
    pub fn add_possibility(&self, var_id: String, new_possibility: Alternatives) -> (c: Clause)
        requires
            self.wf(),
            new_possibility.wf(),
        ensures
            c@ == with_var(self@, var_id@, new_possibility@),
            c.wf(),
    {
        proof {
            lemma_poss_map_wf(self.possibilities);
            lemma_put(self@.possibilities, var_id@, new_possibility@);
        }
        let mut possibilities = clone_possibilities(&self.possibilities);
        proof {
            lemma_poss_map_wf(possibilities);
            lemma_map_vals_put(possibilities.entries(), alt_view(), var_id@, new_possibility);
        }
        possibilities.insert(var_id, new_possibility);
        let c = Clause::new(
            possibilities,
            self.creating_conditional_id,
            self.creating_object_id,
            Some(false),
            Some(self.reconcilable),
            Some(self.generated),
            None,
        );
        proof {
            lemma_put_wf(self@.possibilities, var_id@, new_possibility@);
        }
        c
    }

    /// True when every literal of `other_clause` is a literal of this clause.
    pub fn contains(&self, other_clause: &Clause) -> (r: bool)
        requires
            self.wf(),
            other_clause.wf(),
        ensures
            r == covers(self@, other_clause@),
    {
        proof {
            lemma_poss_map_wf(self.possibilities);
            lemma_poss_map_wf(other_clause.possibilities);
            lemma_map_vals(self.possibilities.entries(), alt_view());
        }
        if other_clause.possibilities.len() > self.possibilities.len() {
            return false;
        }
        let mut i: usize = 0;
        while i < other_clause.possibilities.len()
            invariant
                i <= other_clause.possibilities.entries().len(),
                self.wf(),
                other_clause.wf(),
                poss_map_wf(self.possibilities),
                forall|j: int|
                    0 <= j < i ==> has_key(
                        self@.possibilities,
                        (#[trigger] other_clause@.possibilities[j]).0,
                    ) && subset(
                        other_clause@.possibilities[j].1,
                        value_of(self@.possibilities, other_clause@.possibilities[j].0),
                    ),
            decreases other_clause.possibilities.entries().len() - i,
        {
            let var = other_clause.possibilities.key_at(i);
            let alts = other_clause.possibilities.value_at(i);
            proof {
                lemma_map_vals(self.possibilities.entries(), alt_view());
                assert(other_clause@.possibilities[i as int].0 == var@);
                assert(other_clause@.possibilities[i as int].1 == alts@);
            }
            match self.possibilities.get(var.as_str()) {
                None => {
                    return false;
                },
                Some(own) => {
                    assert(own@ == value_of(self@.possibilities, var@));
                    if !alts.is_subset_of(own) {
                        return false;
                    }
                },
            }
            i += 1;
        }
        true
    }

    /// For each variable, the negation of each of its alternatives.
    pub fn get_impossibilities(&self) -> (r: Vec<(String, Vec<Assertion>)>)
        ensures
            named_lists_view(r@) == impossibilities(self@),
    {
        let mut r: Vec<(String, Vec<Assertion>)> = Vec::new();
        let mut i: usize = 0;
        while i < self.possibilities.len()
            invariant
                i <= self.possibilities.entries().len(),
                r.len() == i,
                forall|j: int|
                    0 <= j < i ==> (#[trigger] r@[j]).0@ == self@.possibilities[j].0
                        && assertion_views(r@[j].1@) == negations(self@.possibilities[j].1),
            decreases self.possibilities.entries().len() - i,
        {
            let var = self.possibilities.key_at(i);
            let alts = self.possibilities.value_at(i);
            let mut negated: Vec<Assertion> = Vec::new();
            let mut k: usize = 0;
            while k < alts.len()
                invariant
                    k <= alts@.len(),
                    negated.len() == k,
                    forall|j: int| 0 <= j < k ==> (#[trigger] negated@[j])@ == negation(alts@[j]),
                decreases alts@.len() - k,
            {
                negated.push(alts.get(k).get_negation());
                k += 1;
            }
            assert(assertion_views(negated@) =~= negations(alts@));
            r.push((var.clone(), negated));
            i += 1;
        }
        assert(named_lists_view(r@) =~= impossibilities(self@));
        r
    }

    /// True when both are the same clause: of two wedges, or two clauses
    /// that are not reconcilable, those of the same provenance; of two
    /// other clauses, those with the same literals.
    pub fn same_as(&self, other: &Clause) -> (r: bool)
        requires
            self.wf(),
            other.wf(),
        ensures
            r == same_clause(self@, other@),
    {
        let opaque = self.wedge || !self.reconcilable;
        let other_opaque = other.wedge || !other.reconcilable;
        if opaque != other_opaque {
            return false;
        }
        if opaque {
            return self.wedge == other.wedge && self.creating_object_id.0
                == other.creating_object_id.0 && self.creating_object_id.1
                == other.creating_object_id.1;
        }
        proof {
            lemma_poss_map_wf(self.possibilities);
            lemma_poss_map_wf(other.possibilities);
            lemma_same_literals(self@.possibilities, other@.possibilities);
        }
        if self.possibilities.len() != other.possibilities.len() {
            return false;
        }
        let mut i: usize = 0;
        while i < self.possibilities.len()
            invariant
                i <= self.possibilities.entries().len(),
                self.possibilities.entries().len() == other.possibilities.entries().len(),
                self.wf(),
                other.wf(),
                !self.wedge && self.reconcilable,
                !other.wedge && other.reconcilable,
                same_clause(self@, other@) == same_literals(
                    self@.possibilities,
                    other@.possibilities,
                ),
                forall|j: int|
                    0 <= j < i ==> (#[trigger] self@.possibilities[j]).0 == other@.possibilities[j].0
                        && same_items(self@.possibilities[j].1, other@.possibilities[j].1),
            decreases self.possibilities.entries().len() - i,
        {
            if !crate::text::str_same(
                self.possibilities.key_at(i).as_str(),
                other.possibilities.key_at(i).as_str(),
            ) {
                assert(self@.possibilities[i as int].0 != other@.possibilities[i as int].0);
                return false;
            }
            let a = self.possibilities.value_at(i);
            let b = other.possibilities.value_at(i);
            assert(self@.possibilities[i as int].1 == a@);
            assert(other@.possibilities[i as int].1 == b@);
            if a.len() != b.len() || !a.is_subset_of(b) {
                proof {
                    if same_items(a@, b@) {
                        lemma_subset_len(a@, b@);
                        lemma_subset_len(b@, a@);
                    }
                }
                return false;
            }
            proof {
                lemma_subset_len(a@, b@);
            }
            i += 1;
        }
        true
    }
}

/// The values of a list of assertions.
pub open spec fn assertion_views(s: Seq<Assertion>) -> Seq<AssertionView> {
    s.map_values(|a: Assertion| a@)
}

/// The value of a list of named lists of assertions.
pub open spec fn named_lists_view(s: Seq<(String, Vec<Assertion>)>) -> PossView {
    s.map_values(|p: (String, Vec<Assertion>)| (p.0@, assertion_views(p.1@)))
}

/// Setting the alternatives of one variable keeps possibilities valid.
pub proof fn lemma_put_wf(p: PossView, var: Text, alts: Seq<AssertionView>)
    requires
        poss_wf(p),
        alts.no_duplicates(),
    ensures
        poss_wf(put(p, var, alts)),
{
    lemma_put(p, var, alts);
    let r = put(p, var, alts);
    assert forall|i: int| 0 <= i < r.len() implies (#[trigger] r[i]).1.no_duplicates() by {
        if has_key(p, var) {
            let x = index_of_key(p, var);
            if i != x {
                assert(r[i] == p[i]);
            }
        } else {
            crate::str_map::lemma_rank_bounds(p, var);
            let x = crate::str_map::rank(p, var);
            if i < x {
                assert(r[i] == p[i]);
            } else if i > x {
                assert(r[i] == p[i - 1]);
            }
        }
    }
}

/// Dropping one variable keeps possibilities valid.
pub proof fn lemma_del_wf(p: PossView, var: Text)
    requires
        poss_wf(p),
    ensures
        poss_wf(del(p, var)),
{
    lemma_del(p, var);
    let r = del(p, var);
    assert forall|i: int| 0 <= i < r.len() implies (#[trigger] r[i]).1.no_duplicates() by {
        if has_key(p, var) {
            let x = index_of_key(p, var);
            let i2 = if i < x { i } else { i + 1 };
            assert(r[i] == p[i2]);
        }
    }
}

} // verus!
