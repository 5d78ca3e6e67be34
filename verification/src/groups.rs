//! Items under keys that stand in order.
use vstd::prelude::*;

use crate::models::{group_models, models};
use crate::order::{
    add_distinct, distinct, in_order, lemma_distinct, lemma_sorted_permutes, lemma_sorted_texts,
    sort_list, sorted,
};
use crate::text::{owned, same, texts};

verus! {

/// The different keys, in order.
pub open spec fn keys_of(keys: Seq<Seq<char>>) -> Seq<Seq<char>> {
    sorted::<String>(distinct(keys))
}

/// The different keys, in order.
pub fn ordered_keys(keys: &Vec<String>) -> (r: Vec<String>)
    ensures
        texts(r@) == keys_of(texts(keys@)),
{
    broadcast use group_models;

    let ghost all = texts(keys@);
    let mut out: Vec<String> = Vec::new();
    let mut i: usize = 0;
    assert(models(out@) =~= distinct(all.take(0)));
    while i < keys.len()
        invariant
            i <= keys.len(),
            all == texts(keys@),
            models(out@) == distinct(all.take(i as int)),
        decreases keys.len() - i,
    {
        assert(all.take(i + 1).drop_last() =~= all.take(i as int));
        assert(all[i as int] == keys@[i as int]@);
        add_distinct(&mut out, owned(keys[i].as_str()));
        i = i + 1;
    }
    assert(all.take(i as int) =~= all);
    let r = sort_list(out);
    assert(texts(r@) =~= models(r@));
    r
}

/// The indices below `n` of the items under a key.
pub open spec fn under(keys: Seq<Seq<char>>, key: Seq<char>, n: int) -> Seq<int>
    decreases n,
{
    if n <= 0 || n > keys.len() {
        Seq::empty()
    } else if keys[n - 1] == key {
        under(keys, key, n - 1).push(n - 1)
    } else {
        under(keys, key, n - 1)
    }
}

/// The numbers of a list.
pub open spec fn ints(v: Seq<usize>) -> Seq<int> {
    v.map_values(|i: usize| i as int)
}

/// The indices of the items under a key.
pub fn indices_under(keys: &Vec<String>, key: &str) -> (r: Vec<usize>)
    ensures
        ints(r@) == under(texts(keys@), key@, keys@.len() as int),
        forall|i: int| 0 <= i < r@.len() ==> (#[trigger] r@[i]) < keys@.len(),
{
    let ghost all = texts(keys@);
    let mut out: Vec<usize> = Vec::new();
    let mut i: usize = 0;
    assert(ints(out@) =~= under(all, key@, 0));
    while i < keys.len()
        invariant
            i <= keys.len(),
            all == texts(keys@),
            ints(out@) == under(all, key@, i as int),
            forall|k: int| 0 <= k < out@.len() ==> (#[trigger] out@[k]) < keys@.len(),
        decreases keys.len() - i,
    {
        assert(all[i as int] == keys@[i as int]@);
        if same(keys[i].as_str(), key) {
            let ghost before = ints(out@);
            out.push(i);
            assert(ints(out@) =~= before.push(i as int));
        }
        i = i + 1;
    }
    out
}

proof fn lemma_under(keys: Seq<Seq<char>>, key: Seq<char>, n: int, i: int)
    requires
        0 <= i < n <= keys.len(),
    ensures
        under(keys, key, n).contains(i) <==> keys[i] == key,
    decreases n,
{
    let before = under(keys, key, n - 1);
    let after = under(keys, key, n);
    if i < n - 1 {
        lemma_under(keys, key, n - 1, i);
        if before.contains(i) {
            let k = choose|k: int| 0 <= k < before.len() && before[k] == i;
            assert(after[k] == i);
        }
        if after.contains(i) {
            let k = choose|k: int| 0 <= k < after.len() && after[k] == i;
            assert(before[k] == i);
        }
    } else {
        lemma_under_below(keys, key, n - 1);
        if keys[i] == key {
            assert(after[before.len() as int] == i);
        } else if after.contains(i) {
            let k = choose|k: int| 0 <= k < after.len() && after[k] == i;
            assert(before[k] == i);
        }
    }
}

proof fn lemma_under_below(keys: Seq<Seq<char>>, key: Seq<char>, n: int)
    ensures
        forall|k: int|
            0 <= k < under(keys, key, n).len() ==> 0 <= #[trigger] under(keys, key, n)[k] < n,
    decreases n,
{
    if 0 < n <= keys.len() {
        lemma_under_below(keys, key, n - 1);
        let before = under(keys, key, n - 1);
        let after = under(keys, key, n);
        assert forall|k: int| 0 <= k < after.len() implies 0 <= #[trigger] after[k] < n by {
            if k < before.len() {
                assert(after[k] == before[k]);
            }
        }
    }
}

/// Every item stands under one of the different keys, which is its own, and under no other.
pub proof fn every_item_is_under_its_key(keys: Seq<Seq<char>>, i: int)
    requires
        0 <= i < keys.len(),
    ensures
        keys_of(keys).contains(keys[i]),
        forall|key: Seq<char>| #[trigger]
            under(keys, key, keys.len() as int).contains(i) <==> keys[i] == key,
{
    lemma_distinct(keys);
    assert(keys.contains(keys[i]));
    assert(distinct(keys).contains(keys[i]));
    lemma_sorted_permutes::<String>(distinct(keys));
    assert forall|key: Seq<char>| #[trigger]
        under(keys, key, keys.len() as int).contains(i) <==> keys[i] == key by {
        lemma_under(keys, key, keys.len() as int, i);
    }
    let d = distinct(keys);
    let s = keys_of(keys);
    assert(d.to_multiset().count(keys[i]) > 0) by {
        d.to_multiset_ensures();
    }
    s.to_multiset_ensures();
}

/// The different keys are the keys, each once.
pub proof fn lemma_keys_of(keys: Seq<Seq<char>>)
    ensures
        keys_of(keys).no_duplicates(),
        forall|i: int| 0 <= i < keys.len() ==> keys_of(keys).contains(#[trigger] keys[i]),
{
    lemma_distinct(keys);
    let d = distinct(keys);
    lemma_sorted_permutes::<String>(d);
    d.lemma_multiset_has_no_duplicates();
    keys_of(keys).lemma_multiset_has_no_duplicates_conv();
    assert forall|i: int| 0 <= i < keys.len() implies keys_of(keys).contains(
        #[trigger] keys[i],
    ) by {
        every_item_is_under_its_key(keys, i);
    }
}

/// How many of the first `n` items stand under the first `m` of some keys.
pub open spec fn count_under(keys: Seq<Seq<char>>, chosen: Seq<Seq<char>>, n: int, m: int) -> int
    decreases m,
{
    if m <= 0 || m > chosen.len() {
        0
    } else {
        count_under(keys, chosen, n, m - 1) + under(keys, chosen[m - 1], n).len()
    }
}

proof fn lemma_count_step(keys: Seq<Seq<char>>, chosen: Seq<Seq<char>>, n: int, m: int)
    requires
        0 < n <= keys.len(),
        0 <= m <= chosen.len(),
        chosen.no_duplicates(),
    ensures
        count_under(keys, chosen, n, m) == count_under(keys, chosen, n - 1, m) + (if chosen.take(
            m,
        ).contains(keys[n - 1]) {
            1int
        } else {
            0int
        }),
    decreases m,
{
    if m > 0 {
        lemma_count_step(keys, chosen, n, m - 1);
        let x = keys[n - 1];
        let fewer = chosen.take(m - 1);
        let more = chosen.take(m);
        if fewer.contains(x) {
            let k = choose|k: int| 0 <= k < fewer.len() && fewer[k] == x;
            assert(more[k] == x);
            assert(chosen[k] == x);
            assert(chosen[m - 1] != x);
        } else if chosen[m - 1] == x {
            assert(more[m - 1] == x);
        } else if more.contains(x) {
            let k = choose|k: int| 0 <= k < more.len() && more[k] == x;
            assert(fewer[k] == x);
        }
    } else {
        assert(chosen.take(0) =~= Seq::<Seq<char>>::empty());
    }
}

proof fn lemma_count_none(keys: Seq<Seq<char>>, chosen: Seq<Seq<char>>, m: int)
    ensures
        count_under(keys, chosen, 0, m) == 0,
    decreases m,
{
    if 0 < m <= chosen.len() {
        lemma_count_none(keys, chosen, m - 1);
    }
}

/// The items under all different keys are all items, each once.
pub proof fn groups_hold_every_item(keys: Seq<Seq<char>>, n: int)
    requires
        0 <= n <= keys.len(),
    ensures
        count_under(keys, keys_of(keys), n, keys_of(keys).len() as int) == n,
    decreases n,
{
    let chosen = keys_of(keys);
    let m = chosen.len() as int;
    if n == 0 {
        lemma_count_none(keys, chosen, m);
    } else {
        groups_hold_every_item(keys, n - 1);
        lemma_keys_of(keys);
        lemma_count_step(keys, chosen, n, m);
        assert(chosen.take(m) =~= chosen);
        assert(chosen.contains(keys[n - 1]));
    }
}

/// The keys of groups stand in order.
pub proof fn keys_are_in_order(keys: Seq<Seq<char>>)
    ensures
        in_order::<String>(keys_of(keys)),
{
    lemma_sorted_texts(distinct(keys));
}

} // verus!
