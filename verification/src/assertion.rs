//! Assertions: atomic propositions about one variable.
use crate::seq_set::{lemma_with_all, lemma_with_item, lemma_without, subset, with_all, with_item, without};
use crate::types::{atomic_eq, AtomicView, TAtomic};
use vstd::prelude::*;

verus! {

/// An atomic proposition about one variable.
#[derive(Debug, PartialEq, Eq)]
pub enum Assertion {
    Truthy,
    Falsy,
    IsType(TAtomic),
    IsNotType(TAtomic),
    IsEqual(TAtomic),
    IsNotEqual(TAtomic),
    IsIsset,
    IsNotIsset,
    IsEqualIsset,
    IsNotEqualIsset,
    ArrayKeyExists,
    ArrayKeyDoesNotExist,
    NonEmptyCountable(bool),
    EmptyCountable(bool),
    HasExactCount(usize),
    DoesNotHaveExactCount(usize),
}

/// The mathematical value of an [`Assertion`].
pub enum AssertionView {
    Truthy,
    Falsy,
    IsType(AtomicView),
    IsNotType(AtomicView),
    IsEqual(AtomicView),
    IsNotEqual(AtomicView),
    IsIsset,
    IsNotIsset,
    IsEqualIsset,
    IsNotEqualIsset,
    ArrayKeyExists,
    ArrayKeyDoesNotExist,
    NonEmptyCountable(bool),
    EmptyCountable(bool),
    HasExactCount(usize),
    DoesNotHaveExactCount(usize),
}

impl View for Assertion {
    type V = AssertionView;

    open spec fn view(&self) -> AssertionView {
        match *self {
            Assertion::Truthy => AssertionView::Truthy,
            Assertion::Falsy => AssertionView::Falsy,
            Assertion::IsType(t) => AssertionView::IsType(t@),
            Assertion::IsNotType(t) => AssertionView::IsNotType(t@),
            Assertion::IsEqual(t) => AssertionView::IsEqual(t@),
            Assertion::IsNotEqual(t) => AssertionView::IsNotEqual(t@),
            Assertion::IsIsset => AssertionView::IsIsset,
            Assertion::IsNotIsset => AssertionView::IsNotIsset,
            Assertion::IsEqualIsset => AssertionView::IsEqualIsset,
            Assertion::IsNotEqualIsset => AssertionView::IsNotEqualIsset,
            Assertion::ArrayKeyExists => AssertionView::ArrayKeyExists,
            Assertion::ArrayKeyDoesNotExist => AssertionView::ArrayKeyDoesNotExist,
            Assertion::NonEmptyCountable(b) => AssertionView::NonEmptyCountable(b),
            Assertion::EmptyCountable(b) => AssertionView::EmptyCountable(b),
            Assertion::HasExactCount(n) => AssertionView::HasExactCount(n),
            Assertion::DoesNotHaveExactCount(n) => AssertionView::DoesNotHaveExactCount(n),
        }
    }
}

/// The proposition that holds exactly when `a` does not.
pub open spec fn negation(a: AssertionView) -> AssertionView {
    match a {
        AssertionView::Truthy => AssertionView::Falsy,
        AssertionView::Falsy => AssertionView::Truthy,
        AssertionView::IsType(t) => AssertionView::IsNotType(t),
        AssertionView::IsNotType(t) => AssertionView::IsType(t),
        AssertionView::IsEqual(t) => AssertionView::IsNotEqual(t),
        AssertionView::IsNotEqual(t) => AssertionView::IsEqual(t),
        AssertionView::IsIsset => AssertionView::IsNotIsset,
        AssertionView::IsNotIsset => AssertionView::IsIsset,
        AssertionView::IsEqualIsset => AssertionView::IsNotEqualIsset,
        AssertionView::IsNotEqualIsset => AssertionView::IsEqualIsset,
        AssertionView::ArrayKeyExists => AssertionView::ArrayKeyDoesNotExist,
        AssertionView::ArrayKeyDoesNotExist => AssertionView::ArrayKeyExists,
        AssertionView::NonEmptyCountable(b) => AssertionView::EmptyCountable(b),
        AssertionView::EmptyCountable(b) => AssertionView::NonEmptyCountable(b),
        AssertionView::HasExactCount(n) => AssertionView::DoesNotHaveExactCount(n),
        AssertionView::DoesNotHaveExactCount(n) => AssertionView::HasExactCount(n),
    }
}

/// `a` is the negated member of its pair.
pub open spec fn is_negated_form(a: AssertionView) -> bool {
    a is Falsy || a is IsNotType || a is IsNotEqual || a is IsNotIsset || a is IsNotEqualIsset
        || a is ArrayKeyDoesNotExist || a is EmptyCountable || a is DoesNotHaveExactCount
}

/// `a` compares a value rather than a type.
pub open spec fn is_equality(a: AssertionView) -> bool {
    a is IsEqual || a is IsNotEqual || a is IsEqualIsset || a is IsNotEqualIsset
}

/// The atomic type that `a` speaks of, if it speaks of one.
pub open spec fn asserted_type(a: AssertionView) -> Option<AtomicView> {
    match a {
        AssertionView::IsType(t) => Some(t),
        AssertionView::IsNotType(t) => Some(t),
        AssertionView::IsEqual(t) => Some(t),
        AssertionView::IsNotEqual(t) => Some(t),
        _ => None,
    }
}

/// `a` and `b` are the two members of one pair.
pub open spec fn negates(a: AssertionView, b: AssertionView) -> bool {
    a == negation(b)
}

/// Negating twice gives the assertion back.
pub proof fn lemma_negation_involutive(a: AssertionView)
    ensures
        negation(negation(a)) == a,
{
}

/// Exactly one member of each pair is the negated form.
pub proof fn lemma_negation_flips_form(a: AssertionView)
    ensures
        is_negated_form(negation(a)) == !is_negated_form(a),
{
}

/// No assertion is its own negation.
pub proof fn lemma_negation_differs(a: AssertionView)
    ensures
        negation(a) != a,
{
}

/// Being each other's negation is symmetric.
pub proof fn lemma_negates_symmetric(a: AssertionView, b: AssertionView)
    ensures
        negates(a, b) == negates(b, a),
{
}

impl Clone for Assertion {
    fn clone(&self) -> (r: Self)
        ensures
            r@ == self@,
    {
        match self {
            Assertion::Truthy => Assertion::Truthy,
            Assertion::Falsy => Assertion::Falsy,
            Assertion::IsType(t) => Assertion::IsType(t.clone()),
            Assertion::IsNotType(t) => Assertion::IsNotType(t.clone()),
            Assertion::IsEqual(t) => Assertion::IsEqual(t.clone()),
            Assertion::IsNotEqual(t) => Assertion::IsNotEqual(t.clone()),
            Assertion::IsIsset => Assertion::IsIsset,
            Assertion::IsNotIsset => Assertion::IsNotIsset,
            Assertion::IsEqualIsset => Assertion::IsEqualIsset,
            Assertion::IsNotEqualIsset => Assertion::IsNotEqualIsset,
            Assertion::ArrayKeyExists => Assertion::ArrayKeyExists,
            Assertion::ArrayKeyDoesNotExist => Assertion::ArrayKeyDoesNotExist,
            Assertion::NonEmptyCountable(b) => Assertion::NonEmptyCountable(*b),
            Assertion::EmptyCountable(b) => Assertion::EmptyCountable(*b),
            Assertion::HasExactCount(n) => Assertion::HasExactCount(*n),
            Assertion::DoesNotHaveExactCount(n) => Assertion::DoesNotHaveExactCount(*n),
        }
    }
}

impl Assertion {
    /// The assertion that holds exactly when this one does not.
    pub fn get_negation(&self) -> (r: Assertion)
        ensures
            r@ == negation(self@),
    {
        match self {
            Assertion::Truthy => Assertion::Falsy,
            Assertion::Falsy => Assertion::Truthy,
            Assertion::IsType(t) => Assertion::IsNotType(t.clone()),
            Assertion::IsNotType(t) => Assertion::IsType(t.clone()),
            Assertion::IsEqual(t) => Assertion::IsNotEqual(t.clone()),
            Assertion::IsNotEqual(t) => Assertion::IsEqual(t.clone()),
            Assertion::IsIsset => Assertion::IsNotIsset,
            Assertion::IsNotIsset => Assertion::IsIsset,
            Assertion::IsEqualIsset => Assertion::IsNotEqualIsset,
            Assertion::IsNotEqualIsset => Assertion::IsEqualIsset,
            Assertion::ArrayKeyExists => Assertion::ArrayKeyDoesNotExist,
            Assertion::ArrayKeyDoesNotExist => Assertion::ArrayKeyExists,
            Assertion::NonEmptyCountable(b) => Assertion::EmptyCountable(*b),
            Assertion::EmptyCountable(b) => Assertion::NonEmptyCountable(*b),
            Assertion::HasExactCount(n) => Assertion::DoesNotHaveExactCount(*n),
            Assertion::DoesNotHaveExactCount(n) => Assertion::HasExactCount(*n),
        }
    }

    /// True when this assertion is the negated member of its pair.
    pub fn has_negation(&self) -> (r: bool)
        ensures
            r == is_negated_form(self@),
    {
        match self {
            Assertion::Falsy
            | Assertion::IsNotType(_)
            | Assertion::IsNotEqual(_)
            | Assertion::IsNotIsset
            | Assertion::IsNotEqualIsset
            | Assertion::ArrayKeyDoesNotExist
            | Assertion::EmptyCountable(_)
            | Assertion::DoesNotHaveExactCount(_) => true,
            _ => false,
        }
    }

    /// True when this assertion compares a value rather than a type.
    pub fn has_equality(&self) -> (r: bool)
        ensures
            r == is_equality(self@),
    {
        match self {
            Assertion::IsEqual(_)
            | Assertion::IsNotEqual(_)
            | Assertion::IsEqualIsset
            | Assertion::IsNotEqualIsset => true,
            _ => false,
        }
    }

    /// The atomic type that this assertion speaks of.
    pub fn get_type(&self) -> (r: Option<&TAtomic>)
        ensures
            match r {
                Some(t) => asserted_type(self@) == Some(t@),
                None => asserted_type(self@) is None,
            },
    {
        match self {
            Assertion::IsType(t) => Some(t),
            Assertion::IsNotType(t) => Some(t),
            Assertion::IsEqual(t) => Some(t),
            Assertion::IsNotEqual(t) => Some(t),
            _ => None,
        }
    }

    /// True when both assertions state the same.
    pub fn same_as(&self, other: &Assertion) -> (r: bool)
        ensures
            r == (self@ == other@),
    {
        match self {
            Assertion::Truthy => matches!(other, Assertion::Truthy),
            Assertion::Falsy => matches!(other, Assertion::Falsy),
            Assertion::IsType(t) => match other {
                Assertion::IsType(o) => atomic_eq(t, o),
                _ => false,
            },
            Assertion::IsNotType(t) => match other {
                Assertion::IsNotType(o) => atomic_eq(t, o),
                _ => false,
            },
            Assertion::IsEqual(t) => match other {
                Assertion::IsEqual(o) => atomic_eq(t, o),
                _ => false,
            },
            Assertion::IsNotEqual(t) => match other {
                Assertion::IsNotEqual(o) => atomic_eq(t, o),
                _ => false,
            },
            Assertion::IsIsset => matches!(other, Assertion::IsIsset),
            Assertion::IsNotIsset => matches!(other, Assertion::IsNotIsset),
            Assertion::IsEqualIsset => matches!(other, Assertion::IsEqualIsset),
            Assertion::IsNotEqualIsset => matches!(other, Assertion::IsNotEqualIsset),
            Assertion::ArrayKeyExists => matches!(other, Assertion::ArrayKeyExists),
            Assertion::ArrayKeyDoesNotExist => matches!(other, Assertion::ArrayKeyDoesNotExist),
            Assertion::NonEmptyCountable(b) => match other {
                Assertion::NonEmptyCountable(o) => *b == *o,
                _ => false,
            },
            Assertion::EmptyCountable(b) => match other {
                Assertion::EmptyCountable(o) => *b == *o,
                _ => false,
            },
            Assertion::HasExactCount(n) => match other {
                Assertion::HasExactCount(o) => *n == *o,
                _ => false,
            },
            Assertion::DoesNotHaveExactCount(n) => match other {
                Assertion::DoesNotHaveExactCount(o) => *n == *o,
                _ => false,
            },
        }
    }

    /// True when this assertion holds exactly when `other` does not.
    pub fn is_negation_of(&self, other: &Assertion) -> (r: bool)
        ensures
            r == negates(self@, other@),
    {
        match self {
            Assertion::Truthy => matches!(other, Assertion::Falsy),
            Assertion::Falsy => matches!(other, Assertion::Truthy),
            Assertion::IsType(t) => match other {
                Assertion::IsNotType(o) => atomic_eq(t, o),
                _ => false,
            },
            Assertion::IsNotType(t) => match other {
                Assertion::IsType(o) => atomic_eq(t, o),
                _ => false,
            },
            Assertion::IsEqual(t) => match other {
                Assertion::IsNotEqual(o) => atomic_eq(t, o),
                _ => false,
            },
            Assertion::IsNotEqual(t) => match other {
                Assertion::IsEqual(o) => atomic_eq(t, o),
                _ => false,
            },
            Assertion::IsIsset => matches!(other, Assertion::IsNotIsset),
            Assertion::IsNotIsset => matches!(other, Assertion::IsIsset),
            Assertion::IsEqualIsset => matches!(other, Assertion::IsNotEqualIsset),
            Assertion::IsNotEqualIsset => matches!(other, Assertion::IsEqualIsset),
            Assertion::ArrayKeyExists => matches!(other, Assertion::ArrayKeyDoesNotExist),
            Assertion::ArrayKeyDoesNotExist => matches!(other, Assertion::ArrayKeyExists),
            Assertion::NonEmptyCountable(b) => match other {
                Assertion::EmptyCountable(o) => *b == *o,
                _ => false,
            },
            Assertion::EmptyCountable(b) => match other {
                Assertion::NonEmptyCountable(o) => *b == *o,
                _ => false,
            },
            Assertion::HasExactCount(n) => match other {
                Assertion::DoesNotHaveExactCount(o) => *n == *o,
                _ => false,
            },
            Assertion::DoesNotHaveExactCount(n) => match other {
                Assertion::HasExactCount(o) => *n == *o,
                _ => false,
            },
        }
    }
}

/// The alternatives that a clause offers for one variable: assertions of
/// which at least one holds. No assertion is listed twice.
#[derive(Debug)]
pub struct Alternatives {
    items: Vec<Assertion>,
}

impl View for Alternatives {
    type V = Seq<AssertionView>;

    closed spec fn view(&self) -> Seq<AssertionView> {
        self.items@.map_values(|a: Assertion| a@)
    }
}

impl Clone for Alternatives {
    fn clone(&self) -> (r: Self)
        ensures
            r@ == self@,
    {
        let mut items: Vec<Assertion> = Vec::new();
        let mut i: usize = 0;
        while i < self.items.len()
            invariant
                i <= self.items.len(),
                items.len() == i,
                forall|j: int| 0 <= j < i ==> items@[j]@ == self.items@[j]@,
            decreases self.items.len() - i,
        {
            items.push(self.items[i].clone());
            i += 1;
        }
        let r = Alternatives { items };
        assert(r@ =~= self@);
        r
    }
}

impl Alternatives {
    /// The representation invariant: no assertion is listed twice.
    pub open spec fn wf(&self) -> bool {
        self@.no_duplicates()
    }

    /// No alternatives.
    pub fn new() -> (r: Self)
        ensures
            r@ == Seq::<AssertionView>::empty(),
            r.wf(),
    {
        let r = Alternatives { items: Vec::new() };
        assert(r@ =~= Seq::<AssertionView>::empty());
        r
    }

    /// The one alternative `a`.
    pub fn single(a: Assertion) -> (r: Self)
        ensures
            r@ == seq![a@],
            r.wf(),
    {
        let mut items: Vec<Assertion> = Vec::new();
        items.push(a);
        let r = Alternatives { items };
        assert(r@ =~= seq![a@]);
        r
    }

    /// The number of alternatives.
    pub fn len(&self) -> (n: usize)
        ensures
            n == self@.len(),
    {
        self.items.len()
    }

    /// The alternative at position `i`.
    pub fn get(&self, i: usize) -> (a: &Assertion)
        requires
            i < self@.len(),
        ensures
            a@ == self@[i as int],
    {
        &self.items[i]
    }

    /// The position of `a` among the alternatives.
    pub fn position(&self, a: &Assertion) -> (r: Option<usize>)
        ensures
            match r {
                Some(i) => i < self@.len() && self@[i as int] == a@,
                None => !self@.contains(a@),
            },
    {
        let mut i: usize = 0;
        while i < self.items.len()
            invariant
                i <= self.items.len(),
                forall|j: int| 0 <= j < i ==> self@[j] != a@,
            decreases self.items.len() - i,
        {
            if self.items[i].same_as(a) {
                return Some(i);
            }
            i += 1;
        }
        None
    }

    /// True when `a` is one of the alternatives.
    pub fn contains(&self, a: &Assertion) -> (r: bool)
        ensures
            r == self@.contains(a@),
    {
        match self.position(a) {
            Some(i) => {
                assert(self@[i as int] == a@);
                true
            },
            None => false,
        }
    }

    /// Adds `a` unless it is listed already.
    pub fn insert(&mut self, a: Assertion)
        ensures
            final(self)@ == with_item(old(self)@, a@),
            old(self).wf() ==> final(self).wf(),
    {
        proof {
            lemma_with_item(self@, a@);
        }
        if !self.contains(&a) {
            let ghost before = self@;
            self.items.push(a);
            assert(self@ =~= before.push(a@));
        }
    }

    /// Removes `a` if it is listed.
    pub fn remove(&mut self, a: &Assertion)
        requires
            old(self).wf(),
        ensures
            final(self)@ == without(old(self)@, a@),
            final(self).wf(),
    {
        proof {
            lemma_without(self@, a@);
        }
        let ghost before = self@;
        match self.position(a) {
            Some(i) => {
                assert(before.contains(a@));
                assert(before.index_of(a@) == i);
                self.items.remove(i);
                assert(self@ =~= before.remove(i as int));
            },
            None => {},
        }
    }

    /// Adds every alternative of `other` that is not listed yet.
    pub fn extend(&mut self, other: &Alternatives)
        ensures
            final(self)@ == with_all(old(self)@, other@),
            old(self).wf() ==> final(self).wf(),
    {
        proof {
            lemma_with_all(self@, other@);
        }
        let mut i: usize = 0;
        assert(other@.take(0) =~= Seq::<AssertionView>::empty());
        while i < other.len()
            invariant
                i <= other@.len(),
                self@ == with_all(old(self)@, other@.take(i as int)),
            decreases other@.len() - i,
        {
            let a = other.get(i).clone();
            proof {
                let t = other@.take(i as int + 1);
                assert(t.drop_last() =~= other@.take(i as int));
                assert(t.last() == other@[i as int]);
            }
            self.insert(a);
            i += 1;
        }
        assert(other@.take(i as int) =~= other@);
    }

    /// True when every alternative listed here is listed in `other`.
    pub fn is_subset_of(&self, other: &Alternatives) -> (r: bool)
        ensures
            r == subset(self@, other@),
    {
        let mut i: usize = 0;
        while i < self.len()
            invariant
                i <= self@.len(),
                forall|j: int| 0 <= j < i ==> other@.contains(#[trigger] self@[j]),
            decreases self@.len() - i,
        {
            if !other.contains(self.get(i)) {
                return false;
            }
            i += 1;
        }
        true
    }
}

} // verus!
