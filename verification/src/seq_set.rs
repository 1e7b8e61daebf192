//! Sequences without repetition, read as sets that remember the order in
//! which their items came.
use vstd::prelude::*;

verus! {

/// `s` with `x` appended unless it is there already.
pub open spec fn with_item<T>(s: Seq<T>, x: T) -> Seq<T> {
    if s.contains(x) {
        s
    } else {
        s.push(x)
    }
}

/// `a` followed by the items of `b` that are new, each once.
pub open spec fn with_all<T>(a: Seq<T>, b: Seq<T>) -> Seq<T>
    decreases b.len(),
{
    if b.len() == 0 {
        a
    } else {
        with_item(with_all(a, b.drop_last()), b.last())
    }
}

/// `s` without the item `x`.
pub open spec fn without<T>(s: Seq<T>, x: T) -> Seq<T> {
    if s.contains(x) {
        s.remove(s.index_of(x))
    } else {
        s
    }
}

/// Every item of `a` is an item of `b`.
pub open spec fn subset<T>(a: Seq<T>, b: Seq<T>) -> bool {
    forall|i: int| 0 <= i < a.len() ==> b.contains(#[trigger] a[i])
}

/// `a` and `b` hold the same items.
pub open spec fn same_items<T>(a: Seq<T>, b: Seq<T>) -> bool {
    subset(a, b) && subset(b, a)
}

/// The items of `s`, each once, in the order of their first occurrence.
pub open spec fn distinct<T>(s: Seq<T>) -> Seq<T> {
    with_all(Seq::<T>::empty(), s)
}

/// Adding an item keeps the items without repetition and adds that item
/// only.
pub proof fn lemma_with_item<T>(s: Seq<T>, x: T)
    ensures
        with_item(s, x).contains(x),
        forall|y: T| with_item(s, x).contains(y) <==> (s.contains(y) || y == x),
        s.no_duplicates() ==> with_item(s, x).no_duplicates(),
        with_item(s, x).len() == if s.contains(x) { s.len() } else { s.len() + 1 },
{
    let r = with_item(s, x);
    if !s.contains(x) {
        assert(r[s.len() as int] == x);
        assert forall|y: T| r.contains(y) <==> (s.contains(y) || y == x) by {
            if s.contains(y) {
                let i = s.index_of(y);
                assert(r[i] == y);
            }
            if r.contains(y) {
                let i = r.index_of(y);
                if i < s.len() {
                    assert(s[i] == y);
                }
            }
        }
    }
}

/// Adding the items of `b` keeps `a` as the start, without repetition if
/// `a` was, and gives the items of both.
pub proof fn lemma_with_all<T>(a: Seq<T>, b: Seq<T>)
    ensures
        forall|y: T| with_all(a, b).contains(y) <==> (a.contains(y) || b.contains(y)),
        a.no_duplicates() ==> with_all(a, b).no_duplicates(),
        a.len() <= with_all(a, b).len() <= a.len() + b.len(),
        forall|i: int| 0 <= i < a.len() ==> with_all(a, b)[i] == a[i],
    decreases b.len(),
{
    if b.len() > 0 {
        let p = b.drop_last();
        lemma_with_all(a, p);
        lemma_with_item(with_all(a, p), b.last());
        assert forall|y: T| with_all(a, b).contains(y) <==> (a.contains(y) || b.contains(y)) by {
            if b.contains(y) {
                let i = b.index_of(y);
                if i < p.len() {
                    assert(p[i] == y);
                }
            }
            if p.contains(y) {
                let i = p.index_of(y);
                assert(b[i] == y);
            }
            assert(b[b.len() - 1] == b.last());
        }
    }
}

/// Taking an item out of a sequence without repetition leaves the other
/// items, without repetition.
pub proof fn lemma_without<T>(s: Seq<T>, x: T)
    requires
        s.no_duplicates(),
    ensures
        without(s, x).no_duplicates(),
        forall|y: T| without(s, x).contains(y) <==> (s.contains(y) && y != x),
        without(s, x).len() == if s.contains(x) { s.len() - 1 } else { s.len() as int },
{
    let r = without(s, x);
    if s.contains(x) {
        let p = s.index_of(x);
        assert forall|i: int, j: int| 0 <= i < r.len() && 0 <= j < r.len() && i != j implies r[i]
            != r[j] by {
            let i2 = if i < p { i } else { i + 1 };
            let j2 = if j < p { j } else { j + 1 };
            assert(r[i] == s[i2] && r[j] == s[j2]);
        }
        assert forall|y: T| r.contains(y) <==> (s.contains(y) && y != x) by {
            if r.contains(y) {
                let i = r.index_of(y);
                let i2 = if i < p { i } else { i + 1 };
                assert(r[i] == s[i2]);
            }
            if s.contains(y) && y != x {
                let i = s.index_of(y);
                if i < p {
                    assert(r[i] == y);
                } else {
                    assert(r[i - 1] == y);
                }
            }
        }
    }
}

/// A sequence without repetition that holds every item of another such
/// sequence is at least as long.
pub proof fn lemma_subset_len<T>(a: Seq<T>, b: Seq<T>)
    requires
        a.no_duplicates(),
        b.no_duplicates(),
        subset(a, b),
    ensures
        a.len() <= b.len(),
        a.len() == b.len() ==> subset(b, a),
    decreases a.len(),
{
    if a.len() > 0 {
        let x = a.last();
        let a2 = a.drop_last();
        assert(a[a.len() - 1] == x);
        assert(b.contains(x));
        let b2 = without(b, x);
        lemma_without(b, x);
        assert(a2.no_duplicates());
        assert forall|i: int| 0 <= i < a2.len() implies b2.contains(#[trigger] a2[i]) by {
            assert(a2[i] == a[i]);
            assert(b.contains(a[i]));
        }
        lemma_subset_len(a2, b2);
        if a.len() == b.len() {
            assert forall|i: int| 0 <= i < b.len() implies a.contains(#[trigger] b[i]) by {
                if b[i] != x {
                    assert(b.contains(b[i]));
                    assert(b2.contains(b[i]));
                    let j = b2.index_of(b[i]);
                    assert(a2.contains(b2[j]));
                    let k = a2.index_of(b2[j]);
                    assert(a[k] == b[i]);
                } else {
                    assert(a[a.len() - 1] == b[i]);
                }
            }
        }
    }
}

/// The items of `s` that satisfy `f`, in their order.
pub open spec fn keep<T>(s: Seq<T>, f: spec_fn(T) -> bool) -> Seq<T>
    decreases s.len(),
{
    if s.len() == 0 {
        s
    } else if f(s.last()) {
        keep(s.drop_last(), f).push(s.last())
    } else {
        keep(s.drop_last(), f)
    }
}

/// What `keep` makes of a prefix that is one item longer.
pub proof fn lemma_keep_step<T>(s: Seq<T>, f: spec_fn(T) -> bool, i: int)
    requires
        0 <= i < s.len(),
    ensures
        keep(s.take(i + 1), f) == if f(s[i]) {
            keep(s.take(i), f).push(s[i])
        } else {
            keep(s.take(i), f)
        },
{
    assert(s.take(i + 1).drop_last() =~= s.take(i));
    assert(s.take(i + 1).last() == s[i]);
}

/// `keep` holds exactly the items that satisfy `f`.
pub proof fn lemma_keep<T>(s: Seq<T>, f: spec_fn(T) -> bool)
    ensures
        forall|x: T| keep(s, f).contains(x) <==> (s.contains(x) && f(x)),
        keep(s, f).len() <= s.len(),
        s.no_duplicates() ==> keep(s, f).no_duplicates(),
    decreases s.len(),
{
    if s.len() > 0 {
        let p = s.drop_last();
        lemma_keep(p, f);
        let r = keep(s, f);
        assert forall|x: T| r.contains(x) <==> (s.contains(x) && f(x)) by {
            if s.contains(x) {
                let i = s.index_of(x);
                if i < p.len() {
                    assert(p[i] == x);
                }
            }
            if p.contains(x) {
                let i = p.index_of(x);
                assert(s[i] == x);
            }
            assert(s[s.len() - 1] == s.last());
            if f(s.last()) {
                let k = keep(p, f);
                assert(r[k.len() as int] == s.last());
                if r.contains(x) {
                    let i = r.index_of(x);
                    if i < k.len() {
                        assert(k[i] == x);
                    }
                }
                if k.contains(x) {
                    let i = k.index_of(x);
                    assert(r[i] == x);
                }
            }
        }
        if s.no_duplicates() {
            assert(p.no_duplicates());
            if f(s.last()) {
                let k = keep(p, f);
                assert(!p.contains(s.last())) by {
                    if p.contains(s.last()) {
                        let i = p.index_of(s.last());
                        assert(s[i] == s[s.len() - 1]);
                    }
                }
            }
        }
    }
}

} // verus!
