//! Stable sorting, and lists without repetitions.
use vstd::prelude::*;

use crate::models::{group_models, models};
use crate::text::{lemma_text_lt_transitive, lemma_text_order, less, same, text_lt};

verus! {

/// Items with an order that tells which of two comes first.
pub trait Ranked: DeepView + Sized {
    /// Whether an item with the model `a` comes before one with the model `b`.
    spec fn before(a: Self::V, b: Self::V) -> bool;

    /// Whether this item comes before another.
    fn precedes(&self, other: &Self) -> (r: bool)
        ensures
            r == Self::before(self.deep_view(), other.deep_view()),
    ;
}

/// `s` with `x` put behind all items at its end that `x` does not come before.
pub open spec fn inserted<T: Ranked>(s: Seq<T::V>, x: T::V) -> Seq<T::V>
    decreases s.len(),
{
    if s.len() > 0 && T::before(x, s.last()) {
        inserted::<T>(s.drop_last(), x).push(s.last())
    } else {
        s.push(x)
    }
}

/// The items of `s` in order; items of which neither comes before the other stay as
/// they stood.
pub open spec fn sorted<T: Ranked>(s: Seq<T::V>) -> Seq<T::V>
    decreases s.len(),
{
    if s.len() == 0 {
        Seq::empty()
    } else {
        inserted::<T>(sorted::<T>(s.drop_last()), s.last())
    }
}

proof fn lemma_inserted<T: Ranked>(s: Seq<T::V>, x: T::V, pos: int)
    requires
        0 <= pos <= s.len(),
        forall|k: int| pos <= k < s.len() ==> T::before(x, #[trigger] s[k]),
        pos > 0 ==> !T::before(x, s[pos - 1]),
    ensures
        inserted::<T>(s, x) == s.insert(pos, x),
    decreases s.len(),
{
    if pos == s.len() {
        assert(s.insert(pos, x) =~= s.push(x));
    } else {
        let t = s.drop_last();
        assert(T::before(x, s[s.len() - 1]));
        lemma_inserted::<T>(t, x, pos);
        assert(s.insert(pos, x) =~= t.insert(pos, x).push(s.last()));
    }
}

fn insert_ranked<T: Ranked>(out: &mut Vec<T>, x: T)
    ensures
        models(final(out)@) == inserted::<T>(models(old(out)@), x.deep_view()),
{
    let ghost all = models(out@);
    let mut pos: usize = out.len();
    while pos > 0 && x.precedes(&out[pos - 1])
        invariant
            pos <= out.len(),
            all == models(out@),
            forall|k: int| pos <= k < out.len() ==> T::before(x.deep_view(), #[trigger] all[k]),
        decreases pos,
    {
        assert(all[pos - 1] == out@[pos - 1].deep_view());
        pos = pos - 1;
    }
    proof {
        if pos > 0 {
            assert(all[pos - 1] == out@[pos - 1].deep_view());
        }
        lemma_inserted::<T>(all, x.deep_view(), pos as int);
    }
    let ghost m = x.deep_view();
    out.insert(pos, x);
    assert(models(out@) =~= all.insert(pos as int, m));
}

/// A list back to front.
pub fn unreversed<T: DeepView>(v: Vec<T>) -> (r: Vec<T>)
    ensures
        models(r@) == models(v@).reverse(),
        r@.len() == v@.len(),
{
    broadcast use group_models;

    let ghost all = models(v@);
    let mut rest = v;
    let mut out: Vec<T> = Vec::new();
    while rest.len() > 0
        invariant
            rest@.len() + out@.len() == all.len(),
            models(rest@) == all.take(rest@.len() as int),
            models(out@) == all.skip(rest@.len() as int).reverse(),
        decreases rest.len(),
    {
        let ghost n = rest@.len() as int;
        let ghost old_rest = rest@;
        let ghost old_out = models(out@);
        match rest.pop() {
            Some(x) => {
                let ghost m = x.deep_view();
                out.push(x);
                proof {
                    assert(models(old_rest)[n - 1] == m);
                    assert(m == all[n - 1]);
                    assert(rest@ =~= old_rest.subrange(0, n - 1));
                    assert(models(rest@) =~= all.take(n - 1));
                    assert(models(out@) == old_out.push(m));
                    assert(models(out@) =~= all.skip(n - 1).reverse());
                }
            },
            None => {},
        }
    }
    assert(all.skip(0) =~= all);
    out
}

/// The items in order, with a stable sort.
pub fn sort_list<T: Ranked>(v: Vec<T>) -> (r: Vec<T>)
    ensures
        models(r@) == sorted::<T>(models(v@)),
{
    broadcast use group_models;

    let ghost all = models(v@);
    let mut back = unreversed(v);
    let mut out: Vec<T> = Vec::new();
    assert(all.skip(0) =~= all);
    assert(all.take(0) =~= Seq::<T::V>::empty());
    while back.len() > 0
        invariant
            back@.len() <= all.len(),
            models(back@) == all.skip(all.len() - back@.len()).reverse(),
            models(out@) == sorted::<T>(all.take(all.len() - back@.len())),
        decreases back.len(),
    {
        let ghost n = back@.len() as int;
        let ghost old_back = back@;
        match back.pop() {
            Some(x) => {
                let ghost m = x.deep_view();
                insert_ranked(&mut out, x);
                proof {
                    let i = all.len() - n;
                    assert(models(old_back)[n - 1] == m);
                    assert(m == all[i]);
                    assert(back@ =~= old_back.subrange(0, n - 1));
                    assert(models(back@) == models(old_back).subrange(0, n - 1));
                    assert(models(back@) =~= all.skip(i + 1).reverse());
                    assert(all.take(i + 1).drop_last() =~= all.take(i));
                    assert(all.take(i + 1).last() == m);
                }
            },
            None => {},
        }
    }
    assert(all.take(all.len() as int) =~= all);
    out
}

/// Sorting keeps every item and how often it occurs.
pub proof fn lemma_sorted_permutes<T: Ranked>(s: Seq<T::V>)
    ensures
        sorted::<T>(s).to_multiset() == s.to_multiset(),
        sorted::<T>(s).len() == s.len(),
    decreases s.len(),
{
    if s.len() > 0 {
        lemma_sorted_permutes::<T>(s.drop_last());
        lemma_inserted_permutes::<T>(sorted::<T>(s.drop_last()), s.last());
        assert(s =~= s.drop_last().push(s.last()));
        s.drop_last().to_multiset_ensures();
    } else {
        assert(s =~= Seq::<T::V>::empty());
    }
}

proof fn lemma_inserted_permutes<T: Ranked>(s: Seq<T::V>, x: T::V)
    ensures
        inserted::<T>(s, x).to_multiset() == s.to_multiset().insert(x),
        inserted::<T>(s, x).len() == s.len() + 1,
    decreases s.len(),
{
    s.to_multiset_ensures();
    if s.len() > 0 && T::before(x, s.last()) {
        let t = s.drop_last();
        lemma_inserted_permutes::<T>(t, x);
        t.to_multiset_ensures();
        inserted::<T>(t, x).to_multiset_ensures();
        assert(s =~= t.push(s.last()));
        assert(t.to_multiset().insert(x).insert(s.last()) =~= t.to_multiset().insert(
            s.last(),
        ).insert(x));
    }
}

/// Whether no item of `s` comes before one that stands in front of it.
pub open spec fn in_order<T: Ranked>(s: Seq<T::V>) -> bool {
    forall|i: int, j: int| 0 <= i < j < s.len() ==> !T::before(#[trigger] s[j], #[trigger] s[i])
}

/// Sorting by an order that is asymmetric, and whose negation is transitive, puts the
/// items in order.
pub proof fn lemma_sorted_in_order<T: Ranked>(s: Seq<T::V>)
    requires
        forall|a: T::V, b: T::V| #[trigger] T::before(a, b) ==> !T::before(b, a),
        forall|a: T::V, b: T::V, c: T::V|
            !#[trigger] T::before(a, b) && !#[trigger] T::before(b, c) ==> !T::before(a, c),
    ensures
        in_order::<T>(sorted::<T>(s)),
    decreases s.len(),
{
    if s.len() > 0 {
        lemma_sorted_in_order::<T>(s.drop_last());
        lemma_inserted_in_order::<T>(sorted::<T>(s.drop_last()), s.last());
    }
}

proof fn lemma_inserted_in_order<T: Ranked>(s: Seq<T::V>, x: T::V)
    requires
        in_order::<T>(s),
        forall|a: T::V, b: T::V| #[trigger] T::before(a, b) ==> !T::before(b, a),
        forall|a: T::V, b: T::V, c: T::V|
            !#[trigger] T::before(a, b) && !#[trigger] T::before(b, c) ==> !T::before(a, c),
    ensures
        in_order::<T>(inserted::<T>(s, x)),
        forall|k: int|
            0 <= k < inserted::<T>(s, x).len() ==> #[trigger] inserted::<T>(s, x)[k] == x
                || s.contains(inserted::<T>(s, x)[k]),
    decreases s.len(),
{
    let r = inserted::<T>(s, x);
    if s.len() > 0 && T::before(x, s.last()) {
        let t = s.drop_last();
        assert(in_order::<T>(t)) by {
            assert forall|i: int, j: int| 0 <= i < j < t.len() implies !T::before(
                #[trigger] t[j],
                #[trigger] t[i],
            ) by {
                assert(t[j] == s[j] && t[i] == s[i]);
            }
        }
        lemma_inserted_in_order::<T>(t, x);
        let q = inserted::<T>(t, x);
        assert forall|i: int, j: int| 0 <= i < j < r.len() implies !T::before(
            #[trigger] r[j],
            #[trigger] r[i],
        ) by {
            if j < q.len() {
                assert(r[j] == q[j] && r[i] == q[i]);
            } else {
                assert(r[j] == s.last());
                assert(r[i] == q[i]);
                if q[i] != x {
                    let k = choose|k: int| 0 <= k < t.len() && t[k] == q[i];
                    assert(s[k] == q[i]);
                    assert(!T::before(s[s.len() - 1], s[k]));
                }
            }
        }
        assert forall|k: int| 0 <= k < r.len() implies #[trigger] r[k] == x || s.contains(r[k]) by {
            if k < q.len() {
                assert(r[k] == q[k]);
                if q[k] != x {
                    let m = choose|m: int| 0 <= m < t.len() && t[m] == q[k];
                    assert(s[m] == q[k]);
                }
            } else {
                assert(s[s.len() - 1] == r[k]);
            }
        }
    } else {
        assert forall|i: int, j: int| 0 <= i < j < r.len() implies !T::before(
            #[trigger] r[j],
            #[trigger] r[i],
        ) by {
            if j < s.len() {
                assert(r[j] == s[j] && r[i] == s[i]);
            } else {
                assert(r[j] == x && r[i] == s[i]);
                if i < s.len() - 1 {
                    assert(!T::before(s[s.len() - 1], s[i]));
                    assert(!T::before(x, s[s.len() - 1]));
                }
            }
        }
        assert forall|k: int| 0 <= k < r.len() implies #[trigger] r[k] == x || s.contains(r[k]) by {
            if k < s.len() {
                assert(s[k] == r[k]);
            }
        }
    }
}

impl Ranked for String {
    open spec fn before(a: Seq<char>, b: Seq<char>) -> bool {
        text_lt(a, b)
    }

    fn precedes(&self, other: &String) -> (r: bool) {
        less(self.as_str(), other.as_str())
    }
}

/// Sorted strings stand in order.
pub proof fn lemma_sorted_texts(s: Seq<Seq<char>>)
    ensures
        in_order::<String>(sorted::<String>(s)),
{
    assert forall|a: Seq<char>, b: Seq<char>| #[trigger]
        String::before(a, b) implies !String::before(b, a) by {
        lemma_text_order(a, b);
    }
    assert forall|a: Seq<char>, b: Seq<char>, c: Seq<char>|
        !#[trigger] String::before(a, b) && !#[trigger] String::before(
            b,
            c,
        ) implies !String::before(a, c) by {
        lemma_text_order(a, b);
        lemma_text_order(b, c);
        if text_lt(a, c) {
            if a == b {
            } else {
                lemma_text_lt_transitive(b, a, c);
            }
        }
    }
    lemma_sorted_in_order::<String>(s);
}

/// The items of `s`, each where it stands first.
pub open spec fn distinct<V>(s: Seq<V>) -> Seq<V>
    decreases s.len(),
{
    if s.len() == 0 {
        Seq::empty()
    } else {
        let rest = distinct(s.drop_last());
        if rest.contains(s.last()) {
            rest
        } else {
            rest.push(s.last())
        }
    }
}

/// `distinct` keeps every item and repeats none.
pub proof fn lemma_distinct<V>(s: Seq<V>)
    ensures
        distinct(s).no_duplicates(),
        forall|x: V| s.contains(x) <==> #[trigger] distinct(s).contains(x),
        distinct(s).len() <= s.len(),
    decreases s.len(),
{
    if s.len() > 0 {
        let t = s.drop_last();
        lemma_distinct(t);
        let d = distinct(t);
        assert forall|x: V| s.contains(x) <==> #[trigger] distinct(s).contains(x) by {
            if s.contains(x) {
                let k = choose|k: int| 0 <= k < s.len() && s[k] == x;
                if k < t.len() {
                    assert(t[k] == x);
                    assert(d.contains(x));
                }
                if d.contains(x) {
                    let m = choose|m: int| 0 <= m < d.len() && d[m] == x;
                    assert(distinct(s)[m] == x);
                } else {
                    assert(x == s.last());
                    assert(distinct(s)[d.len() as int] == x);
                }
            }
            if distinct(s).contains(x) {
                let m = choose|m: int| 0 <= m < distinct(s).len() && distinct(s)[m] == x;
                if m < d.len() {
                    assert(d[m] == x);
                    assert(d.contains(x));
                    assert(t.contains(x));
                    let k = choose|k: int| 0 <= k < t.len() && t[k] == x;
                    assert(s[k] == x);
                } else {
                    assert(s[s.len() - 1] == x);
                }
            }
        }
    }
}

/// Adds a string to a list that repeats none.
pub fn add_distinct(list: &mut Vec<String>, s: String) -> (added: bool)
    ensures
        added == !models(old(list)@).contains(s@),
        models(final(list)@) == (if models(old(list)@).contains(s@) {
            models(old(list)@)
        } else {
            models(old(list)@).push(s@)
        }),
{
    broadcast use group_models;

    let ghost all = models(list@);
    let mut i: usize = 0;
    while i < list.len()
        invariant
            i <= list.len(),
            all == models(list@),
            forall|k: int| 0 <= k < i ==> all[k] != s@,
        decreases list.len() - i,
    {
        assert(all[i as int] == list@[i as int]@);
        if same(list[i].as_str(), s.as_str()) {
            return false;
        }
        i = i + 1;
    }
    list.push(s);
    true
}

} // verus!
