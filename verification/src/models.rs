//! Mathematical models of lists, and lists that serve as tables keyed by text.
use vstd::prelude::*;

use crate::text::same;

verus! {

/// The models of the items of a list.
pub open spec fn models<T: DeepView>(s: Seq<T>) -> Seq<T::V> {
    Seq::new(s.len(), |i: int| s[i].deep_view())
}

pub broadcast proof fn lemma_models_push<T: DeepView>(s: Seq<T>, x: T)
    ensures
        #[trigger] models(s.push(x)) == models(s).push(x.deep_view()),
{
    assert(models(s.push(x)) =~= models(s).push(x.deep_view()));
}

pub broadcast proof fn lemma_models_empty<T: DeepView>(s: Seq<T>)
    ensures
        s.len() == 0 ==> #[trigger] models(s) == Seq::<T::V>::empty(),
{
    if s.len() == 0 {
        assert(models(s) =~= Seq::<T::V>::empty());
    }
}

pub broadcast proof fn lemma_models_subrange<T: DeepView>(s: Seq<T>, i: int, j: int)
    requires
        0 <= i <= j <= s.len(),
    ensures
        #[trigger] models(s.subrange(i, j)) == models(s).subrange(i, j),
{
    assert(models(s.subrange(i, j)) =~= models(s).subrange(i, j));
}

pub broadcast proof fn lemma_models_add<T: DeepView>(a: Seq<T>, b: Seq<T>)
    ensures
        #[trigger] models(a + b) == models(a) + models(b),
{
    assert(models(a + b) =~= models(a) + models(b));
}

pub broadcast proof fn lemma_models_remove<T: DeepView>(s: Seq<T>, i: int)
    requires
        0 <= i < s.len(),
    ensures
        #[trigger] models(s.remove(i)) == models(s).remove(i),
{
    assert(models(s.remove(i)) =~= models(s).remove(i));
}

pub broadcast group group_models {
    lemma_models_push,
    lemma_models_empty,
    lemma_models_subrange,
    lemma_models_add,
    lemma_models_remove,
}

/// An entry of a table.
pub struct Entry<T> {
    pub key: String,
    pub value: T,
}

impl<T: DeepView> DeepView for Entry<T> {
    type V = (Seq<char>, T::V);

    open spec fn deep_view(&self) -> (Seq<char>, T::V) {
        (self.key@, self.value.deep_view())
    }
}

/// The index of the first entry with a key, or the table's length.
pub open spec fn key_index<V>(t: Seq<(Seq<char>, V)>, key: Seq<char>) -> int
    decreases t.len(),
{
    if t.len() == 0 {
        0
    } else if t[0].0 == key {
        0
    } else {
        1 + key_index(t.drop_first(), key)
    }
}

/// What a table holds under a key.
pub open spec fn table_get<V>(t: Seq<(Seq<char>, V)>, key: Seq<char>) -> Option<V> {
    let i = key_index(t, key);
    if i < t.len() {
        Some(t[i].1)
    } else {
        None
    }
}

/// The table with a value under a key: in the place of what it holds there, or at the
/// end.
pub open spec fn table_set<V>(t: Seq<(Seq<char>, V)>, key: Seq<char>, value: V) -> Seq<
    (Seq<char>, V),
> {
    let i = key_index(t, key);
    if i < t.len() {
        t.update(i, (key, value))
    } else {
        t.push((key, value))
    }
}

/// The table without the first entry under a key.
pub open spec fn table_remove<V>(t: Seq<(Seq<char>, V)>, key: Seq<char>) -> Seq<(Seq<char>, V)> {
    let i = key_index(t, key);
    if i < t.len() {
        t.remove(i)
    } else {
        t
    }
}

/// `key_index` is the least index with the key.
pub proof fn lemma_key_index<V>(t: Seq<(Seq<char>, V)>, key: Seq<char>)
    ensures
        0 <= key_index(t, key) <= t.len(),
        key_index(t, key) < t.len() ==> t[key_index(t, key)].0 == key,
        forall|k: int| 0 <= k < key_index(t, key) ==> #[trigger] t[k].0 != key,
    decreases t.len(),
{
    if t.len() > 0 && t[0].0 != key {
        let rest = t.drop_first();
        lemma_key_index(rest, key);
        assert forall|k: int| 0 <= k < key_index(t, key) implies #[trigger] t[k].0 != key by {
            if k > 0 {
                assert(t[k] == rest[k - 1]);
            }
        }
    }
}

/// An index is `key_index` where it holds the key, or is the table's length, and no
/// index below it holds the key.
pub proof fn lemma_key_index_is<V>(t: Seq<(Seq<char>, V)>, key: Seq<char>, i: int)
    requires
        0 <= i <= t.len(),
        forall|k: int| 0 <= k < i ==> #[trigger] t[k].0 != key,
        i < t.len() ==> t[i].0 == key,
    ensures
        key_index(t, key) == i,
{
    lemma_key_index(t, key);
    let j = key_index(t, key);
    if j < i {
        assert(t[j].0 != key);
    }
    if i < j {
        assert(t[i].0 != key);
    }
}

/// What is set under a key is got under it.
pub proof fn lemma_table_get_set<V>(t: Seq<(Seq<char>, V)>, key: Seq<char>, value: V)
    ensures
        table_get(table_set(t, key, value), key) == Some(value),
{
    lemma_key_index(t, key);
    let i = key_index(t, key);
    lemma_key_index_is(table_set(t, key, value), key, i);
}

/// What is set under a key changes nothing under another.
pub proof fn lemma_table_get_set_other<V>(
    t: Seq<(Seq<char>, V)>,
    key: Seq<char>,
    value: V,
    other: Seq<char>,
)
    requires
        other != key,
    ensures
        table_get(table_set(t, key, value), other) == table_get(t, other),
{
    lemma_key_index(t, key);
    lemma_key_index(t, other);
    let s = table_set(t, key, value);
    let i = key_index(t, key);
    let j = key_index(t, other);
    if j < t.len() {
        assert forall|k: int| 0 <= k < j implies #[trigger] s[k].0 != other by {
            assert(t[k].0 != other);
        }
        lemma_key_index_is(s, other, j);
    } else {
        assert forall|k: int| 0 <= k < s.len() implies #[trigger] s[k].0 != other by {
            if k < t.len() {
                assert(t[k].0 != other);
            }
        }
        lemma_key_index_is(s, other, s.len() as int);
    }
}

/// No key stands twice in the table.
pub open spec fn unique_keys<V>(t: Seq<(Seq<char>, V)>) -> bool {
    forall|i: int, j: int| 0 <= i < j < t.len() ==> #[trigger] t[i].0 != #[trigger] t[j].0
}

/// Setting and removing keep the keys unique.
pub proof fn lemma_unique_keys<V>(t: Seq<(Seq<char>, V)>, key: Seq<char>, value: V)
    requires
        unique_keys(t),
    ensures
        unique_keys(table_set(t, key, value)),
        unique_keys(table_remove(t, key)),
{
    lemma_key_index(t, key);
}

/// In a table with unique keys, what is removed is gone.
pub proof fn lemma_table_get_remove<V>(t: Seq<(Seq<char>, V)>, key: Seq<char>)
    requires
        unique_keys(t),
    ensures
        table_get(table_remove(t, key), key) is None,
{
    lemma_key_index(t, key);
    let s = table_remove(t, key);
    let i = key_index(t, key);
    assert forall|k: int| 0 <= k < s.len() implies #[trigger] s[k].0 != key by {
        if i < t.len() && k >= i {
            assert(s[k] == t[k + 1]);
            assert(t[i].0 != t[k + 1].0);
        } else {
            assert(s[k] == t[k]);
        }
    }
    lemma_key_index_is(s, key, s.len() as int);
}

/// Removing one key changes nothing under another.
pub proof fn lemma_table_get_remove_other<V>(
    t: Seq<(Seq<char>, V)>,
    key: Seq<char>,
    other: Seq<char>,
)
    requires
        other != key,
    ensures
        table_get(table_remove(t, key), other) == table_get(t, other),
{
    lemma_key_index(t, key);
    lemma_key_index(t, other);
    let s = table_remove(t, key);
    let i = key_index(t, key);
    let j = key_index(t, other);
    if i < t.len() {
        let at = if j > i {
            j - 1
        } else {
            j
        };
        assert forall|k: int| 0 <= k < at implies #[trigger] s[k].0 != other by {
            if k >= i {
                assert(s[k] == t[k + 1]);
            } else {
                assert(s[k] == t[k]);
            }
        }
        lemma_key_index_is(s, other, at);
    }
}

/// The index of the first entry with a key.
pub fn find_key<T: DeepView>(t: &Vec<Entry<T>>, key: &str) -> (r: Option<usize>)
    ensures
        match r {
            Some(i) => i < t@.len() && key_index(models(t@), key@) == i && t@[i as int].key@
                == key@,
            None => key_index(models(t@), key@) == t@.len(),
        },
{
    let ghost all = models(t@);
    let mut i: usize = 0;
    while i < t.len()
        invariant
            i <= t.len(),
            all == models(t@),
            forall|k: int| 0 <= k < i ==> #[trigger] all[k].0 != key@,
        decreases t.len() - i,
    {
        assert(all[i as int].0 == t@[i as int].key@);
        if same(t[i].key.as_str(), key) {
            proof {
                lemma_key_index_is(all, key@, i as int);
            }
            return Some(i);
        }
        i = i + 1;
    }
    proof {
        lemma_key_index_is(all, key@, i as int);
    }
    None
}

/// What a table holds under a key.
pub fn get_entry<'a, T: DeepView>(t: &'a Vec<Entry<T>>, key: &str) -> (r: Option<&'a T>)
    ensures
        match r {
            Some(v) => table_get(models(t@), key@) == Some(v.deep_view()),
            None => table_get(models(t@), key@) is None,
        },
{
    match find_key(t, key) {
        Some(i) => {
            assert(models(t@)[i as int].1 == t@[i as int].value.deep_view());
            Some(&t[i].value)
        },
        None => None,
    }
}

/// Puts a value under a key.
pub fn set_entry<T: DeepView>(t: &mut Vec<Entry<T>>, key: String, value: T)
    ensures
        models(final(t)@) == table_set(models(old(t)@), key@, value.deep_view()),
{
    broadcast use group_models;

    match find_key(t, key.as_str()) {
        Some(i) => {
            let ghost before = models(t@);
            let e = Entry { key, value };
            let ghost m = e.deep_view();
            t.set(i, e);
            assert(models(t@) =~= before.update(i as int, m));
        },
        None => {
            t.push(Entry { key, value });
        },
    }
}

/// Takes the first entry under a key out.
pub fn remove_entry<T: DeepView>(t: &mut Vec<Entry<T>>, key: &str) -> (r: Option<T>)
    ensures
        models(final(t)@) == table_remove(models(old(t)@), key@),
        match r {
            Some(v) => table_get(models(old(t)@), key@) == Some(v.deep_view()),
            None => table_get(models(old(t)@), key@) is None,
        },
{
    broadcast use group_models;

    match find_key(t, key) {
        Some(i) => {
            assert(models(t@)[i as int].1 == t@[i as int].value.deep_view());
            let e = t.remove(i);
            Some(e.value)
        },
        None => None,
    }
}

/// A copy of a list of strings.
pub fn copy_strings(v: &Vec<String>) -> (r: Vec<String>)
    ensures
        r@ == v@,
        models(r@) == models(v@),
{
    let mut out: Vec<String> = Vec::new();
    let mut i: usize = 0;
    while i < v.len()
        invariant
            i <= v.len(),
            out@ == v@.take(i as int),
        decreases v.len() - i,
    {
        out.push(v[i].clone());
        assert(out@ =~= v@.take(i + 1));
        i = i + 1;
    }
    assert(out@ =~= v@);
    out
}

} // verus!
