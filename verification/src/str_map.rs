//! An ordered map from names to values, kept as a vector of entries sorted
//! by name.
use crate::text::{lemma_text_lt_asymmetric, lemma_text_lt_irreflexive, lemma_text_lt_total, lemma_text_lt_transitive, str_lt, str_same, text_lt, Text};
use vstd::prelude::*;

verus! {

/// Entries are in strictly increasing order of their names.
pub open spec fn sorted<T>(e: Seq<(Text, T)>) -> bool {
    forall|i: int, j: int| #![trigger e[i], e[j]] 0 <= i < j < e.len() ==> text_lt(e[i].0, e[j].0)
}

/// Some entry carries the name `k`.
pub open spec fn has_key<T>(e: Seq<(Text, T)>, k: Text) -> bool {
    exists|i: int| 0 <= i < e.len() && (#[trigger] e[i]).0 == k
}

/// The position of an entry named `k`.
pub open spec fn index_of_key<T>(e: Seq<(Text, T)>, k: Text) -> int {
    choose|i: int| 0 <= i < e.len() && (#[trigger] e[i]).0 == k
}

/// The value stored under `k`.
pub open spec fn value_of<T>(e: Seq<(Text, T)>, k: Text) -> T {
    e[index_of_key(e, k)].1
}

/// The value stored under `k`, if any.
pub open spec fn lookup<T>(e: Seq<(Text, T)>, k: Text) -> Option<T> {
    if has_key(e, k) {
        Some(value_of(e, k))
    } else {
        None
    }
}

/// The names, in order.
pub open spec fn keys_of<T>(e: Seq<(Text, T)>) -> Seq<Text> {
    e.map_values(|p: (Text, T)| p.0)
}

/// How many leading entries have a name before `k`.
pub open spec fn rank<T>(e: Seq<(Text, T)>, k: Text) -> int
    decreases e.len(),
{
    if e.len() == 0 || !text_lt(e[0].0, k) {
        0
    } else {
        1 + rank(e.drop_first(), k)
    }
}

/// The entries after storing `v` under `k`.
pub open spec fn put<T>(e: Seq<(Text, T)>, k: Text, v: T) -> Seq<(Text, T)> {
    if has_key(e, k) {
        e.update(index_of_key(e, k), (k, v))
    } else {
        e.insert(rank(e, k), (k, v))
    }
}

/// The entries after dropping the one named `k`.
pub open spec fn del<T>(e: Seq<(Text, T)>, k: Text) -> Seq<(Text, T)> {
    if has_key(e, k) {
        e.remove(index_of_key(e, k))
    } else {
        e
    }
}

/// In a sorted sequence a name occurs at one position only.
pub proof fn lemma_index_unique<T>(e: Seq<(Text, T)>, i: int)
    requires
        sorted(e),
        0 <= i < e.len(),
    ensures
        has_key(e, e[i].0),
        index_of_key(e, e[i].0) == i,
        value_of(e, e[i].0) == e[i].1,
{
    let j = index_of_key(e, e[i].0);
    if j < i {
        lemma_text_lt_irreflexive(e[i].0);
        assert(text_lt(e[j].0, e[i].0));
    } else if i < j {
        lemma_text_lt_irreflexive(e[i].0);
        assert(text_lt(e[i].0, e[j].0));
    }
}

/// Where the scan for `k` stops is its rank; a name that the scan did not
/// meet there is absent.
pub proof fn lemma_rank_at<T>(e: Seq<(Text, T)>, k: Text, p: int)
    requires
        sorted(e),
        0 <= p <= e.len(),
        forall|j: int| 0 <= j < p ==> text_lt((#[trigger] e[j]).0, k),
        p == e.len() || !text_lt(e[p].0, k),
    ensures
        rank(e, k) == p,
        has_key(e, k) <==> (p < e.len() && e[p].0 == k),
    decreases p,
{
    if p > 0 {
        let rest = e.drop_first();
        assert forall|i: int, j: int| 0 <= i < j < rest.len() implies text_lt(
            (#[trigger] rest[i]).0,
            (#[trigger] rest[j]).0,
        ) by {
            assert(rest[i] == e[i + 1]);
            assert(rest[j] == e[j + 1]);
        }
        assert forall|j: int| 0 <= j < p - 1 implies text_lt((#[trigger] rest[j]).0, k) by {
            assert(rest[j] == e[j + 1]);
        }
        if p < e.len() {
            assert(rest[p - 1] == e[p]);
        }
        lemma_rank_at(rest, k, p - 1);
        assert(text_lt(e[0].0, k));
    }
    if has_key(e, k) {
        let i = index_of_key(e, k);
        if i < p {
            lemma_text_lt_irreflexive(k);
        } else if i > p {
            assert(text_lt(e[p].0, e[i].0));
            lemma_text_lt_total(e[p].0, k);
        } else {
        }
    }
}

/// Storing into a sorted sequence keeps it sorted and changes what is
/// found under the stored name only.
pub proof fn lemma_put<T>(e: Seq<(Text, T)>, k: Text, v: T)
    requires
        sorted(e),
    ensures
        sorted(put(e, k, v)),
        has_key(put(e, k, v), k),
        value_of(put(e, k, v), k) == v,
        forall|o: Text| o != k ==> has_key(put(e, k, v), o) == has_key(e, o),
        forall|o: Text| o != k && has_key(e, o) ==> value_of(put(e, k, v), o) == value_of(e, o),
        put(e, k, v).len() == if has_key(e, k) { e.len() } else { e.len() + 1 },
{
    let r = put(e, k, v);
    if has_key(e, k) {
        let i = index_of_key(e, k);
        assert forall|a: int, b: int| 0 <= a < b < r.len() implies text_lt(
            (#[trigger] r[a]).0,
            (#[trigger] r[b]).0,
        ) by {
            assert(r[a].0 == e[a].0);
            assert(r[b].0 == e[b].0);
        }
        assert(r[i].0 == k);
        lemma_index_unique(r, i);
        assert forall|o: Text| o != k implies has_key(r, o) == has_key(e, o) by {
            if has_key(e, o) {
                let j = index_of_key(e, o);
                assert(r[j].0 == o);
            }
            if has_key(r, o) {
                let j = index_of_key(r, o);
                assert(e[j].0 == o);
            }
        }
        assert forall|o: Text| o != k && has_key(e, o) implies value_of(r, o) == value_of(e, o) by {
            let j = index_of_key(e, o);
            lemma_index_unique(e, j);
            assert(r[j] == e[j]);
            lemma_index_unique(r, j);
        }
    } else {
        let p = rank(e, k);
        lemma_rank_bounds(e, k);
        assert forall|a: int, b: int| 0 <= a < b < r.len() implies text_lt(
            (#[trigger] r[a]).0,
            (#[trigger] r[b]).0,
        ) by {
            if b < p {
                assert(r[a] == e[a] && r[b] == e[b]);
            } else if b == p {
                assert(r[a] == e[a]);
            } else if a < p {
                assert(r[a] == e[a] && r[b] == e[b - 1]);
            } else if a == p {
                assert(r[b] == e[b - 1]);
                assert(!text_lt(e[p].0, k));
                assert(e[p].0 != k);
                lemma_text_lt_total(e[p].0, k);
                if b - 1 > p {
                    assert(text_lt(e[p].0, e[b - 1].0));
                    lemma_text_lt_transitive(k, e[p].0, e[b - 1].0);
                }
            } else {
                assert(r[a] == e[a - 1] && r[b] == e[b - 1]);
            }
        }
        assert(r[p].0 == k);
        lemma_index_unique(r, p);
        assert forall|o: Text| o != k implies has_key(r, o) == has_key(e, o) by {
            if has_key(e, o) {
                let j = index_of_key(e, o);
                if j < p {
                    assert(r[j].0 == o);
                } else {
                    assert(r[j + 1].0 == o);
                }
            }
            if has_key(r, o) {
                let j = index_of_key(r, o);
                if j < p {
                    assert(e[j].0 == o);
                } else {
                    assert(e[j - 1].0 == o);
                }
            }
        }
        assert forall|o: Text| o != k && has_key(e, o) implies value_of(r, o) == value_of(e, o) by {
            let j = index_of_key(e, o);
            lemma_index_unique(e, j);
            if j < p {
                assert(r[j] == e[j]);
                lemma_index_unique(r, j);
            } else {
                assert(r[j + 1] == e[j]);
                lemma_index_unique(r, j + 1);
            }
        }
    }
}

/// The rank lies within the sequence, everything before it is smaller,
/// and the entry at it is not.
pub proof fn lemma_rank_bounds<T>(e: Seq<(Text, T)>, k: Text)
    requires
        sorted(e),
    ensures
        0 <= rank(e, k) <= e.len(),
        forall|j: int| 0 <= j < rank(e, k) ==> text_lt((#[trigger] e[j]).0, k),
        rank(e, k) < e.len() ==> !text_lt(e[rank(e, k)].0, k),
    decreases e.len(),
{
    if e.len() == 0 || !text_lt(e[0].0, k) {
    } else {
        let rest = e.drop_first();
        assert forall|i: int, j: int| 0 <= i < j < rest.len() implies text_lt(
            (#[trigger] rest[i]).0,
            (#[trigger] rest[j]).0,
        ) by {
            assert(rest[i] == e[i + 1]);
            assert(rest[j] == e[j + 1]);
        }
        lemma_rank_bounds(rest, k);
        assert forall|j: int| 0 <= j < rank(e, k) implies text_lt((#[trigger] e[j]).0, k) by {
            if j > 0 {
                assert(e[j] == rest[j - 1]);
            }
        }
        if rank(e, k) < e.len() {
            assert(e[rank(e, k)] == rest[rank(rest, k)]);
        }
    }
}

/// Dropping from a sorted sequence keeps it sorted and changes what is
/// found under the dropped name only.
pub proof fn lemma_del<T>(e: Seq<(Text, T)>, k: Text)
    requires
        sorted(e),
    ensures
        sorted(del(e, k)),
        !has_key(del(e, k), k),
        forall|o: Text| o != k ==> has_key(del(e, k), o) == has_key(e, o),
        forall|o: Text| o != k && has_key(e, o) ==> value_of(del(e, k), o) == value_of(e, o),
        del(e, k).len() == if has_key(e, k) { e.len() - 1 } else { e.len() as int },
{
    let r = del(e, k);
    if has_key(e, k) {
        let p = index_of_key(e, k);
        assert forall|a: int, b: int| 0 <= a < b < r.len() implies text_lt(
            (#[trigger] r[a]).0,
            (#[trigger] r[b]).0,
        ) by {
            let a2 = if a < p { a } else { a + 1 };
            let b2 = if b < p { b } else { b + 1 };
            assert(r[a] == e[a2] && r[b] == e[b2]);
        }
        if has_key(r, k) {
            let j = index_of_key(r, k);
            let j2 = if j < p { j } else { j + 1 };
            assert(r[j] == e[j2]);
            lemma_index_unique(e, j2);
        }
        assert forall|o: Text| o != k implies has_key(r, o) == has_key(e, o) by {
            if has_key(e, o) {
                let j = index_of_key(e, o);
                if j < p {
                    assert(r[j].0 == o);
                } else {
                    assert(r[j - 1].0 == o);
                }
            }
            if has_key(r, o) {
                let j = index_of_key(r, o);
                let j2 = if j < p { j } else { j + 1 };
                assert(r[j] == e[j2]);
            }
        }
        assert forall|o: Text| o != k && has_key(e, o) implies value_of(r, o) == value_of(e, o) by {
            let j = index_of_key(e, o);
            lemma_index_unique(e, j);
            if j < p {
                assert(r[j] == e[j]);
                lemma_index_unique(r, j);
            } else {
                assert(r[j - 1] == e[j]);
                lemma_index_unique(r, j - 1);
            }
        }
    }
}

/// Two sorted sequences with the same names have them at the same places.
pub proof fn lemma_same_keys<T, U>(a: Seq<(Text, T)>, b: Seq<(Text, U)>)
    requires
        sorted(a),
        sorted(b),
        forall|k: Text| has_key(a, k) == has_key(b, k),
    ensures
        a.len() == b.len(),
        forall|i: int| 0 <= i < a.len() ==> (#[trigger] a[i]).0 == b[i].0,
    decreases a.len(),
{
    if a.len() == 0 {
        if b.len() > 0 {
            assert(has_key(b, b[0].0));
            let i = index_of_key(a, b[0].0);
        }
    } else if b.len() == 0 {
        assert(has_key(a, a[0].0));
        let i = index_of_key(b, a[0].0);
    } else {
        let la = a.last();
        let lb = b.last();
        assert(has_key(a, la.0));
        assert(has_key(b, lb.0));
        let i = index_of_key(b, la.0);
        let j = index_of_key(a, lb.0);
        // la.0 is the largest name of a, lb.0 the largest of b
        if la.0 != lb.0 {
            assert(j < a.len() - 1) by {
                if j == a.len() - 1 {
                }
            }
            assert(text_lt(a[j].0, la.0));
            assert(i < b.len() - 1) by {
                if i == b.len() - 1 {
                }
            }
            assert(text_lt(b[i].0, lb.0));
            lemma_text_lt_asymmetric(lb.0, la.0);
        }
        let a2 = a.drop_last();
        let b2 = b.drop_last();
        lemma_index_unique(a, a.len() - 1);
        lemma_index_unique(b, b.len() - 1);
        assert forall|k: Text| has_key(a2, k) == has_key(b2, k) by {
            if has_key(a2, k) {
                let x = index_of_key(a2, k);
                assert(a[x].0 == k);
                lemma_index_unique(a, x);
                let y = index_of_key(b, k);
                lemma_index_unique(b, y);
                assert(y != b.len() - 1);
                assert(b2[y].0 == k);
            }
            if has_key(b2, k) {
                let x = index_of_key(b2, k);
                assert(b[x].0 == k);
                lemma_index_unique(b, x);
                let y = index_of_key(a, k);
                lemma_index_unique(a, y);
                assert(y != a.len() - 1);
                assert(a2[y].0 == k);
            }
        }
        assert(sorted(a2)) by {
            assert forall|x: int, y: int| 0 <= x < y < a2.len() implies text_lt(
                (#[trigger] a2[x]).0,
                (#[trigger] a2[y]).0,
            ) by {
                assert(a2[x] == a[x] && a2[y] == a[y]);
            }
        }
        assert(sorted(b2)) by {
            assert forall|x: int, y: int| 0 <= x < y < b2.len() implies text_lt(
                (#[trigger] b2[x]).0,
                (#[trigger] b2[y]).0,
            ) by {
                assert(b2[x] == b[x] && b2[y] == b[y]);
            }
        }
        lemma_same_keys(a2, b2);
        assert forall|x: int| 0 <= x < a.len() implies (#[trigger] a[x]).0 == b[x].0 by {
            if x < a.len() - 1 {
                assert(a2[x] == a[x]);
                assert(b2[x] == b[x]);
            }
        }
    }
}

/// The entries with each value replaced by what `f` makes of it.
pub open spec fn map_vals<T, U>(e: Seq<(Text, T)>, f: spec_fn(T) -> U) -> Seq<(Text, U)> {
    e.map_values(|p: (Text, T)| (p.0, f(p.1)))
}

/// Replacing the values leaves names, order and positions as they were.
pub proof fn lemma_map_vals<T, U>(e: Seq<(Text, T)>, f: spec_fn(T) -> U)
    ensures
        sorted(map_vals(e, f)) == sorted(e),
        forall|k: Text| has_key(map_vals(e, f), k) == has_key(e, k),
        sorted(e) ==> forall|k: Text| #[trigger]
            has_key(e, k) ==> index_of_key(map_vals(e, f), k) == index_of_key(e, k) && value_of(
                map_vals(e, f),
                k,
            ) == f(value_of(e, k)),
{
    let m = map_vals(e, f);
    if sorted(e) {
        assert forall|i: int, j: int| 0 <= i < j < m.len() implies text_lt(
            (#[trigger] m[i]).0,
            (#[trigger] m[j]).0,
        ) by {
            assert(m[i].0 == e[i].0 && m[j].0 == e[j].0);
        }
    }
    if sorted(m) {
        assert forall|i: int, j: int| 0 <= i < j < e.len() implies text_lt(
            (#[trigger] e[i]).0,
            (#[trigger] e[j]).0,
        ) by {
            assert(m[i].0 == e[i].0 && m[j].0 == e[j].0);
        }
    }
    assert forall|k: Text| has_key(m, k) == has_key(e, k) by {
        if has_key(m, k) {
            let i = index_of_key(m, k);
            assert(e[i].0 == k);
        }
        if has_key(e, k) {
            let i = index_of_key(e, k);
            assert(m[i].0 == k);
        }
    }
    if sorted(e) {
        assert forall|k: Text| #[trigger] has_key(e, k) implies index_of_key(m, k) == index_of_key(
            e,
            k,
        ) && value_of(m, k) == f(value_of(e, k)) by {
            let i = index_of_key(e, k);
            lemma_index_unique(e, i);
            assert(m[i].0 == k);
            lemma_index_unique(m, i);
        }
    }
}

/// Storing a value and then replacing all values is the same as replacing
/// them first and then storing what `f` makes of the value.
pub proof fn lemma_map_vals_put<T, U>(e: Seq<(Text, T)>, f: spec_fn(T) -> U, k: Text, v: T)
    requires
        sorted(e),
    ensures
        map_vals(put(e, k, v), f) == put(map_vals(e, f), k, f(v)),
{
    lemma_map_vals(e, f);
    let m = map_vals(e, f);
    if has_key(e, k) {
        assert(has_key(e, k));
        assert(map_vals(put(e, k, v), f) =~= put(m, k, f(v)));
    } else {
        lemma_rank_bounds(e, k);
        let p = rank(e, k);
        assert forall|j: int| 0 <= j < p implies text_lt((#[trigger] m[j]).0, k) by {
            assert(m[j].0 == e[j].0);
        }
        lemma_rank_at(m, k, p);
        assert(map_vals(put(e, k, v), f) =~= put(m, k, f(v)));
    }
}

/// Dropping a name and then replacing all values is the same as replacing
/// them first and then dropping the name.
pub proof fn lemma_map_vals_del<T, U>(e: Seq<(Text, T)>, f: spec_fn(T) -> U, k: Text)
    requires
        sorted(e),
    ensures
        map_vals(del(e, k), f) == del(map_vals(e, f), k),
{
    lemma_map_vals(e, f);
    if has_key(e, k) {
        assert(has_key(e, k));
        assert(map_vals(del(e, k), f) =~= del(map_vals(e, f), k));
    }
}

/// Storing under a name that was dropped just before gives what storing
/// under it at once gives.
pub proof fn lemma_put_after_del<T>(e: Seq<(Text, T)>, k: Text, v: T)
    requires
        sorted(e),
    ensures
        put(del(e, k), k, v) == put(e, k, v),
{
    lemma_del(e, k);
    if has_key(e, k) {
        let i = index_of_key(e, k);
        let d = del(e, k);
        lemma_index_unique(e, i);
        assert forall|j: int| 0 <= j < i implies text_lt((#[trigger] d[j]).0, k) by {
            assert(d[j] == e[j]);
            assert(text_lt(e[j].0, e[i].0));
        }
        if i < d.len() {
            assert(d[i] == e[i + 1]);
            assert(text_lt(e[i].0, e[i + 1].0));
            lemma_text_lt_asymmetric(k, d[i].0);
        }
        lemma_rank_at(d, k, i);
        assert(put(d, k, v) =~= put(e, k, v));
    }
}

/// The entries after storing every entry of `o`, last entry first.
pub open spec fn put_all<T>(e: Seq<(Text, T)>, o: Seq<(Text, T)>) -> Seq<(Text, T)>
    decreases o.len(),
{
    if o.len() == 0 {
        e
    } else {
        put_all(put(e, o.last().0, o.last().1), o.drop_last())
    }
}

/// Storing all entries of a sorted sequence gives the names of both, with
/// the values of the stored entries where both have a name.
pub proof fn lemma_put_all<T>(e: Seq<(Text, T)>, o: Seq<(Text, T)>)
    requires
        sorted(e),
        sorted(o),
    ensures
        sorted(put_all(e, o)),
        forall|k: Text| #[trigger]
            has_key(put_all(e, o), k) <==> (has_key(e, k) || has_key(o, k)),
        forall|k: Text| #[trigger]
            has_key(put_all(e, o), k) ==> value_of(put_all(e, o), k) == if has_key(o, k) {
                value_of(o, k)
            } else {
                value_of(e, k)
            },
    decreases o.len(),
{
    if o.len() > 0 {
        let o2 = o.drop_last();
        let e2 = put(e, o.last().0, o.last().1);
        lemma_put(e, o.last().0, o.last().1);
        assert forall|i: int, j: int| 0 <= i < j < o2.len() implies text_lt(
            (#[trigger] o2[i]).0,
            (#[trigger] o2[j]).0,
        ) by {
            assert(o2[i] == o[i] && o2[j] == o[j]);
        }
        lemma_put_all(e2, o2);
        lemma_index_unique(o, o.len() - 1);
        let last = o.last().0;
        assert(!has_key(o2, last)) by {
            if has_key(o2, last) {
                let i = index_of_key(o2, last);
                assert(o2[i] == o[i]);
                lemma_index_unique(o, i);
            }
        }
        assert forall|k: Text| has_key(o, k) <==> (has_key(o2, k) || k == last) by {
            if has_key(o, k) {
                let i = index_of_key(o, k);
                if i < o2.len() {
                    assert(o2[i].0 == k);
                }
            }
            if has_key(o2, k) {
                let i = index_of_key(o2, k);
                assert(o[i].0 == k);
            }
        }
        assert forall|k: Text| has_key(o2, k) implies value_of(o, k) == value_of(o2, k) by {
            let i = index_of_key(o2, k);
            lemma_index_unique(o2, i);
            assert(o[i] == o2[i]);
            lemma_index_unique(o, i);
        }
        let r = put_all(e, o);
        assert forall|k: Text| #[trigger] has_key(r, k) <==> (has_key(e, k) || has_key(o, k)) by {
            assert(has_key(put_all(e2, o2), k) <==> (has_key(e2, k) || has_key(o2, k)));
        }
        assert forall|k: Text| #[trigger] has_key(r, k) implies value_of(r, k) == if has_key(o, k) {
            value_of(o, k)
        } else {
            value_of(e, k)
        } by {
            assert(has_key(put_all(e2, o2), k));
        }
    }
}

/// An ordered map from names to values.
#[derive(Debug)]
pub struct StrMap<V> {
    data: Vec<(String, V)>,
}

impl<V> StrMap<V> {
    /// The entries in order of their names.
    pub closed spec fn entries(&self) -> Seq<(Text, V)> {
        self.data@.map_values(|p: (String, V)| (p.0@, p.1))
    }

    /// The representation invariant: names strictly increase.
    pub open spec fn wf(&self) -> bool {
        sorted(self.entries())
    }

    /// An empty map.
    pub fn new() -> (m: Self)
        ensures
            m.wf(),
            m.entries() == Seq::<(Text, V)>::empty(),
    {
        let m = StrMap { data: Vec::new() };
        assert(m.entries() =~= Seq::<(Text, V)>::empty());
        m
    }

    /// The number of entries.
    pub fn len(&self) -> (n: usize)
        ensures
            n == self.entries().len(),
    {
        self.data.len()
    }

    /// True when the map has no entry.
    pub fn is_empty(&self) -> (r: bool)
        ensures
            r == (self.entries().len() == 0),
    {
        self.data.len() == 0
    }

    /// The name of the entry at position `i`.
    pub fn key_at(&self, i: usize) -> (k: &String)
        requires
            i < self.entries().len(),
        ensures
            k@ == self.entries()[i as int].0,
    {
        &self.data[i].0
    }

    /// The value of the entry at position `i`.
    pub fn value_at(&self, i: usize) -> (v: &V)
        requires
            i < self.entries().len(),
        ensures
            *v == self.entries()[i as int].1,
    {
        &self.data[i].1
    }

    /// The position of the entry named `key`.
    pub fn position(&self, key: &str) -> (r: Option<usize>)
        requires
            self.wf(),
        ensures
            match r {
                Some(i) => i < self.entries().len() && self.entries()[i as int].0 == key@
                    && index_of_key(self.entries(), key@) == i,
                None => true,
            },
            r.is_some() == has_key(self.entries(), key@),
    {
        let mut i: usize = 0;
        while i < self.data.len() && str_lt(self.data[i].0.as_str(), key)
            invariant
                i <= self.data.len(),
                forall|j: int| 0 <= j < i ==> text_lt((#[trigger] self.entries()[j]).0, key@),
            decreases self.data.len() - i,
        {
            i += 1;
        }
        proof {
            lemma_rank_at(self.entries(), key@, i as int);
        }
        if i < self.data.len() && str_same(self.data[i].0.as_str(), key) {
            proof {
                lemma_index_unique(self.entries(), i as int);
            }
            Some(i)
        } else {
            None
        }
    }

    /// The value stored under `key`.
    pub fn get(&self, key: &str) -> (r: Option<&V>)
        requires
            self.wf(),
        ensures
            r.is_some() == has_key(self.entries(), key@),
            r.is_some() ==> *r.unwrap() == value_of(self.entries(), key@),
    {
        match self.position(key) {
            Some(i) => Some(&self.data[i].1),
            None => None,
        }
    }

    /// True when some entry is named `key`.
    pub fn contains_key(&self, key: &str) -> (r: bool)
        requires
            self.wf(),
        ensures
            r == has_key(self.entries(), key@),
    {
        self.position(key).is_some()
    }

    /// Adds an entry whose name comes after every name in the map.
    pub fn append(&mut self, key: String, value: V)
        requires
            old(self).wf(),
            forall|i: int|
                0 <= i < old(self).entries().len() ==> text_lt(
                    (#[trigger] old(self).entries()[i]).0,
                    key@,
                ),
        ensures
            final(self).wf(),
            final(self).entries() == old(self).entries().push((key@, value)),
    {
        let ghost before = self.entries();
        self.data.push((key, value));
        assert(self.entries() =~= before.push((key@, value)));
        assert forall|i: int, j: int| 0 <= i < j < self.entries().len() implies text_lt(
            (#[trigger] self.entries()[i]).0,
            (#[trigger] self.entries()[j]).0,
        ) by {
            assert(self.entries()[i] == before[i]);
            if j < before.len() {
                assert(self.entries()[j] == before[j]);
            }
        }
    }

    /// Stores `value` under `key`, replacing what was stored there.
    pub fn insert(&mut self, key: String, value: V)
        requires
            old(self).wf(),
        ensures
            final(self).wf(),
            final(self).entries() == put(old(self).entries(), key@, value),
    {
        let mut i: usize = 0;
        while i < self.data.len() && str_lt(self.data[i].0.as_str(), key.as_str())
            invariant
                i <= self.data.len(),
                forall|j: int| 0 <= j < i ==> text_lt((#[trigger] self.entries()[j]).0, key@),
            decreases self.data.len() - i,
        {
            i += 1;
        }
        proof {
            lemma_rank_at(self.entries(), key@, i as int);
            lemma_put(self.entries(), key@, value);
        }
        let ghost before = self.entries();
        if i < self.data.len() && str_same(self.data[i].0.as_str(), key.as_str()) {
            proof {
                lemma_index_unique(self.entries(), i as int);
            }
            self.data.set(i, (key, value));
            assert(self.entries() =~= put(before, key@, value));
        } else {
            self.data.insert(i, (key, value));
            assert(self.entries() =~= put(before, key@, value));
        }
    }

    /// Stores every entry of `other`, replacing what was stored under the
    /// same names.
    pub fn extend(&mut self, other: StrMap<V>)
        requires
            old(self).wf(),
            other.wf(),
        ensures
            final(self).wf(),
            final(self).entries() == put_all(old(self).entries(), other.entries()),
    {
        let mut rest = other;
        while rest.data.len() > 0
            invariant
                self.wf(),
                rest.wf(),
                put_all(self.entries(), rest.entries()) == put_all(
                    old(self).entries(),
                    other.entries(),
                ),
            decreases rest.data.len(),
        {
            let ghost before = rest.entries();
            let pair = rest.data.pop().unwrap();
            assert(rest.entries() =~= before.drop_last());
            assert(before.last() == (pair.0@, pair.1));
            assert forall|i: int, j: int| 0 <= i < j < rest.entries().len() implies text_lt(
                (#[trigger] rest.entries()[i]).0,
                (#[trigger] rest.entries()[j]).0,
            ) by {
                assert(rest.entries()[i] == before[i] && rest.entries()[j] == before[j]);
            }
            self.insert(pair.0, pair.1);
        }
    }

    /// Drops the entry named `key`, if there is one, and hands its value out.
    pub fn remove(&mut self, key: &str) -> (r: Option<V>)
        requires
            old(self).wf(),
        ensures
            final(self).wf(),
            final(self).entries() == del(old(self).entries(), key@),
            r == lookup(old(self).entries(), key@),
    {
        proof {
            lemma_del(self.entries(), key@);
        }
        let ghost before = self.entries();
        match self.position(key) {
            Some(i) => {
                let pair = self.data.remove(i);
                assert(self.entries() =~= del(before, key@));
                Some(pair.1)
            },
            None => None,
        }
    }
}

impl<V: Clone> Clone for StrMap<V> {
    /// A map with the same names, each with a copy of its value.
    fn clone(&self) -> (r: Self)
        ensures
            r.entries().len() == self.entries().len(),
            forall|i: int|
                #![trigger r.entries()[i]]
                0 <= i < self.entries().len() ==> r.entries()[i].0 == self.entries()[i].0
                    && vstd::pervasive::cloned(self.entries()[i].1, r.entries()[i].1),
    {
        let mut data: Vec<(String, V)> = Vec::new();
        let mut i: usize = 0;
        while i < self.data.len()
            invariant
                i <= self.data.len(),
                data.len() == i,
                forall|j: int|
                    #![trigger data@[j]]
                    0 <= j < i ==> data@[j].0@ == self.data@[j].0@ && vstd::pervasive::cloned(
                        self.data@[j].1,
                        data@[j].1,
                    ),
            decreases self.data.len() - i,
        {
            let k = self.data[i].0.clone();
            let v = self.data[i].1.clone();
            data.push((k, v));
            i += 1;
        }
        StrMap { data }
    }
}

/// True when both maps have the same names.
pub fn keys_match<U, V>(map1: &StrMap<U>, map2: &StrMap<V>) -> (r: bool)
    requires
        map1.wf(),
        map2.wf(),
    ensures
        r == (forall|k: Text| has_key(map1.entries(), k) == has_key(map2.entries(), k)),
{
    if map1.len() != map2.len() {
        proof {
            if forall|k: Text| has_key(map1.entries(), k) == has_key(map2.entries(), k) {
                lemma_same_keys(map1.entries(), map2.entries());
            }
        }
        return false;
    }
    let mut i: usize = 0;
    while i < map1.len()
        invariant
            i <= map1.entries().len(),
            map1.entries().len() == map2.entries().len(),
            map1.wf(),
            map2.wf(),
            forall|j: int| 0 <= j < i ==> (#[trigger] map1.entries()[j]).0 == map2.entries()[j].0,
        decreases map1.entries().len() - i,
    {
        if !str_same(map1.key_at(i).as_str(), map2.key_at(i).as_str()) {
            proof {
                if forall|k: Text| has_key(map1.entries(), k) == has_key(map2.entries(), k) {
                    lemma_same_keys(map1.entries(), map2.entries());
                }
            }
            return false;
        }
        i += 1;
    }
    proof {
        let a = map1.entries();
        let b = map2.entries();
        assert forall|k: Text| has_key(a, k) == has_key(b, k) by {
            if has_key(a, k) {
                let x = index_of_key(a, k);
                assert(b[x].0 == k);
            }
            if has_key(b, k) {
                let x = index_of_key(b, k);
                assert(a[x].0 == k);
            }
        }
    }
    true
}

/// A set of names.
#[derive(Debug)]
pub struct NameSet {
    names: StrMap<()>,
}

impl View for NameSet {
    type V = Set<Text>;

    closed spec fn view(&self) -> Set<Text> {
        Set::new(|k: Text| has_key(self.names.entries(), k))
    }
}

impl NameSet {
    /// The representation invariant of the set.
    pub closed spec fn wf(&self) -> bool {
        self.names.wf()
    }

    /// The empty set.
    pub fn new() -> (r: Self)
        ensures
            r.wf(),
            r@ == Set::<Text>::empty(),
    {
        let r = NameSet { names: StrMap::new() };
        assert(r@ =~= Set::<Text>::empty());
        r
    }

    /// True when `name` is in the set.
    pub fn contains(&self, name: &str) -> (r: bool)
        requires
            self.wf(),
        ensures
            r == self@.contains(name@),
    {
        self.names.contains_key(name)
    }

    /// Adds `name` to the set.
    pub fn insert(&mut self, name: String)
        requires
            old(self).wf(),
        ensures
            final(self).wf(),
            final(self)@ == old(self)@.insert(name@),
    {
        proof {
            lemma_put(self.names.entries(), name@, ());
        }
        self.names.insert(name, ());
        assert(self@ =~= old(self)@.insert(name@));
    }

    /// Adds every name of `other` to the set.
    pub fn extend(&mut self, other: NameSet)
        requires
            old(self).wf(),
            other.wf(),
        ensures
            final(self).wf(),
            final(self)@ == old(self)@.union(other@),
    {
        proof {
            lemma_put_all(self.names.entries(), other.names.entries());
        }
        self.names.extend(other.names);
        assert(self@ =~= old(self)@.union(other@));
    }

    /// Takes `name` out of the set.
    pub fn remove(&mut self, name: &str)
        requires
            old(self).wf(),
        ensures
            final(self).wf(),
            final(self)@ == old(self)@.remove(name@),
    {
        proof {
            lemma_del(self.names.entries(), name@);
        }
        self.names.remove(name);
        assert(self@ =~= old(self)@.remove(name@));
    }
}

} // verus!
