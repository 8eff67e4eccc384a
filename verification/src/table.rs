//! Ordered maps and sets of handles.
//!
//! A map holds entries of key handle and value handle, a set holds handles.
//! Both are kept in ascending order of the values that the key handles
//! resolve to in the arena, without two keys that resolve to the same value.
//! A key is looked up by value: the search resolves the keys it passes and
//! stops at the first that does not come before the key looked for.

use vstd::prelude::*;

use crate::arena::{canonical_handle, Arena};
use crate::env::resolved;
use crate::value::{
    lemma_value_order_equal, lemma_value_order_swap, lemma_value_order_transitive, value_order,
    Value, ValueView,
};

verus! {

/// Where a search for a key ends.
pub enum Search {
    /// At a key handle that resolves to nothing.
    Dangling,
    /// At an index: that of the key looked for where it was found, else the
    /// index at which it would have to be inserted.
    At(nat, bool),
}

/// The key handles of the entries of a map.
pub open spec fn keys_of(entries: Seq<(u64, u64)>) -> Seq<u64> {
    Seq::new(entries.len(), |i: int| entries[i].0)
}

/// The search for `key` among `keys` from index `start` on.
pub open spec fn search_from(
    store: Map<u64, ValueView>,
    keys: Seq<u64>,
    key: ValueView,
    start: nat,
) -> Search
    decreases keys.len() - start,
{
    if start >= keys.len() {
        Search::At(keys.len(), false)
    } else {
        match resolved(store, keys[start as int]) {
            None => Search::Dangling,
            Some(k) => if value_order(k, key) == 0 {
                Search::At(start, true)
            } else if value_order(k, key) > 0 {
                Search::At(start, false)
            } else {
                search_from(store, keys, key, start + 1)
            },
        }
    }
}

/// The search for `key` among `keys`.
pub open spec fn search(store: Map<u64, ValueView>, keys: Seq<u64>, key: ValueView) -> Search {
    search_from(store, keys, key, 0)
}

/// Every key resolves, and each key comes before the next in the order on
/// values.
pub open spec fn ascending(store: Map<u64, ValueView>, keys: Seq<u64>) -> bool {
    &&& forall|i: int| 0 <= i < keys.len() ==> resolved(store, #[trigger] keys[i]).is_some()
    &&& forall|i: int, j: int|
        0 <= i < j < keys.len() ==> value_order(
            resolved(store, #[trigger] keys[i]).unwrap(),
            resolved(store, #[trigger] keys[j]).unwrap(),
        ) < 0
}

/// Searches a set for a key. `None` stands for a handle that resolves to
/// nothing.
pub fn find_in_set(arena: &Arena, items: &Vec<u64>, key: &Value) -> (r: Option<(usize, bool)>)
    ensures
        match search(arena@, items@, key@) {
            Search::Dangling => r.is_none(),
            Search::At(i, found) => r.is_some() && r.unwrap().0 == i && r.unwrap().1 == found && i
                <= items@.len() && (found ==> i < items@.len()),
        },
{
    let mut i: usize = 0;
    while i < items.len()
        invariant
            i <= items.len(),
            search(arena@, items@, key@) == search_from(arena@, items@, key@, i as nat),
        decreases items.len() - i,
    {
        match arena.get(items[i]) {
            None => {
                return None;
            },
            Some(k) => {
                let order = k.order(key);
                if order == 0 {
                    return Some((i, true));
                }
                if order > 0 {
                    return Some((i, false));
                }
            },
        }
        i = i + 1;
    }
    Some((i, false))
}

/// Searches the keys of a map for a key. `None` stands for a handle that
/// resolves to nothing.
pub fn find_in_map(arena: &Arena, entries: &Vec<(u64, u64)>, key: &Value) -> (r: Option<
    (usize, bool),
>)
    ensures
        match search(arena@, keys_of(entries@), key@) {
            Search::Dangling => r.is_none(),
            Search::At(i, found) => r.is_some() && r.unwrap().0 == i && r.unwrap().1 == found && i
                <= entries@.len() && (found ==> i < entries@.len()),
        },
{
    let mut i: usize = 0;
    while i < entries.len()
        invariant
            i <= entries.len(),
            search(arena@, keys_of(entries@), key@) == search_from(
                arena@,
                keys_of(entries@),
                key@,
                i as nat,
            ),
        decreases entries.len() - i,
    {
        assert(keys_of(entries@)[i as int] == entries@[i as int].0);
        match arena.get(entries[i].0) {
            None => {
                return None;
            },
            Some(k) => {
                let order = k.order(key);
                if order == 0 {
                    return Some((i, true));
                }
                if order > 0 {
                    return Some((i, false));
                }
            },
        }
        i = i + 1;
    }
    Some((i, false))
}


/// How a key handle compares with a key: the order of what it resolves to
/// and the key, or nothing where it resolves to nothing.
pub open spec fn key_order(store: Map<u64, ValueView>, h: u64, key: ValueView) -> Option<int> {
    match resolved(store, h) {
        None => None,
        Some(k) => Some(value_order(k, key)),
    }
}

/// Where a search ends, all keys before that place come before the key
/// looked for, and the key at that place, if there is one, does not.
pub proof fn lemma_search_sound(
    store: Map<u64, ValueView>,
    keys: Seq<u64>,
    key: ValueView,
    start: nat,
)
    requires
        start <= keys.len(),
        search_from(store, keys, key, start) is At,
    ensures
        ({
            let at = search_from(store, keys, key, start)->At_0;
            let found = search_from(store, keys, key, start)->At_1;
            &&& start <= at <= keys.len()
            &&& forall|i: int|
                start <= i < at ==> key_order(store, #[trigger] keys[i], key).is_some()
                    && key_order(store, keys[i], key).unwrap() < 0
            &&& found ==> at < keys.len() && key_order(store, keys[at as int], key) == Some(0int)
            &&& !found && at < keys.len() ==> key_order(store, keys[at as int], key).is_some()
                && key_order(store, keys[at as int], key).unwrap() > 0
        }),
    decreases keys.len() - start,
{
    if start < keys.len() {
        let k = resolved(store, keys[start as int]).unwrap();
        if value_order(k, key) < 0 {
            lemma_search_sound(store, keys, key, start + 1);
        }
    }
}

/// A place before which all keys come before the key looked for, and at
/// which there is no key or one that does not, is where the search ends.
pub proof fn lemma_search_complete(
    store: Map<u64, ValueView>,
    keys: Seq<u64>,
    key: ValueView,
    start: nat,
    at: nat,
)
    requires
        start <= at <= keys.len(),
        forall|i: int|
            start <= i < at ==> key_order(store, #[trigger] keys[i], key).is_some() && key_order(
                store,
                keys[i],
                key,
            ).unwrap() < 0,
        at < keys.len() ==> key_order(store, keys[at as int], key).is_some() && key_order(
            store,
            keys[at as int],
            key,
        ).unwrap() >= 0,
    ensures
        search_from(store, keys, key, start) == Search::At(
            at,
            at < keys.len() && key_order(store, keys[at as int], key) == Some(0int),
        ),
    decreases at - start,
{
    if start < at {
        assert(key_order(store, keys[start as int], key).is_some());
        lemma_search_complete(store, keys, key, start + 1, at);
    }
}

/// The value handle under a key in a map, if the map has the key.
pub open spec fn lookup(
    store: Map<u64, ValueView>,
    entries: Seq<(u64, u64)>,
    key: ValueView,
) -> Option<u64> {
    match search(store, keys_of(entries), key) {
        Search::At(at, found) => if found {
            Some(entries[at as int].1)
        } else {
            None
        },
        Search::Dangling => None,
    }
}

/// The entries of a map after a value handle was put under a key: at the
/// place where the search for the key ended, the entry found holds the new
/// value handle, or a new entry under the key handle `k` went in.
pub open spec fn put(
    entries: Seq<(u64, u64)>,
    at: nat,
    found: bool,
    k: u64,
    v: u64,
) -> Seq<(u64, u64)> {
    if found {
        entries.update(at as int, (entries[at as int].0, v))
    } else {
        entries.insert(at as int, (k, v))
    }
}

/// The entries of a map after a key was taken out: without the entry found
/// at the place where the search for the key ended.
pub open spec fn cut(entries: Seq<(u64, u64)>, at: nat, found: bool) -> Seq<(u64, u64)> {
    if found {
        entries.remove(at as int)
    } else {
        entries
    }
}

/// The store in which a key put into a map resolves: where a new entry went
/// in, the key is held under its handle.
pub open spec fn keyed(
    store: Map<u64, ValueView>,
    found: bool,
    k: u64,
    key: ValueView,
) -> Map<u64, ValueView> {
    if found {
        store
    } else {
        store.insert(k, key)
    }
}

/// What is put under a key is what is found under it.
pub proof fn lemma_get_after_put(
    store: Map<u64, ValueView>,
    entries: Seq<(u64, u64)>,
    key: ValueView,
    at: nat,
    found: bool,
    k: u64,
    v: u64,
)
    requires
        search(store, keys_of(entries), key) == Search::At(at, found),
        !found ==> !store.dom().contains(k) && canonical_handle(k) == k,
    ensures
        lookup(keyed(store, found, k, key), put(entries, at, found, k, v), key) == Some(v),
{
    let keys = keys_of(entries);
    let after = put(entries, at, found, k, v);
    let store2 = keyed(store, found, k, key);
    lemma_search_sound(store, keys, key, 0);
    lemma_value_order_equal(key, key);
    assert forall|i: int| 0 <= i < at implies key_order(store2, #[trigger] keys_of(after)[i], key)
        == key_order(store, keys[i], key) by {
        assert(key_order(store, keys[i], key).is_some());
    }
    assert(key_order(store2, keys_of(after)[at as int], key) == Some(0int));
    lemma_search_complete(store2, keys_of(after), key, 0, at);
}

/// After a key was taken out of a map whose keys ascend, nothing is found
/// under it.
pub proof fn lemma_get_after_cut(
    store: Map<u64, ValueView>,
    entries: Seq<(u64, u64)>,
    key: ValueView,
    at: nat,
    found: bool,
)
    requires
        ascending(store, keys_of(entries)),
        search(store, keys_of(entries), key) == Search::At(at, found),
    ensures
        lookup(store, cut(entries, at, found), key).is_none(),
{
    let keys = keys_of(entries);
    let after = cut(entries, at, found);
    lemma_search_sound(store, keys, key, 0);
    if found {
        let here = resolved(store, keys[at as int]).unwrap();
        lemma_value_order_equal(here, key);
        assert forall|i: int| 0 <= i < at implies key_order(
            store,
            #[trigger] keys_of(after)[i],
            key,
        ).is_some() && key_order(store, keys_of(after)[i], key).unwrap() < 0 by {
            assert(keys_of(after)[i] == keys[i]);
            assert(key_order(store, keys[i], key).is_some());
        }
        if at < after.len() {
            assert(keys_of(after)[at as int] == keys[at as int + 1]);
            let next = resolved(store, keys[at as int + 1]).unwrap();
            lemma_value_order_swap(here, next);
        }
        lemma_search_complete(store, keys_of(after), key, 0, at);
    }
}


/// A search among keys that all resolve ends at a place.
pub proof fn lemma_search_total(
    store: Map<u64, ValueView>,
    keys: Seq<u64>,
    key: ValueView,
    start: nat,
)
    requires
        forall|i: int| 0 <= i < keys.len() ==> resolved(store, #[trigger] keys[i]).is_some(),
    ensures
        search_from(store, keys, key, start) is At,
    decreases keys.len() - start,
{
    if start < keys.len() {
        assert(resolved(store, keys[start as int]).is_some());
        lemma_search_total(store, keys, key, start + 1);
    }
}

/// A map whose keys ascend has ascending keys after a put.
pub proof fn lemma_put_keeps_ascending(
    store: Map<u64, ValueView>,
    entries: Seq<(u64, u64)>,
    key: ValueView,
    at: nat,
    found: bool,
    k: u64,
    v: u64,
)
    requires
        ascending(store, keys_of(entries)),
        search(store, keys_of(entries), key) == Search::At(at, found),
        !found ==> !store.dom().contains(k) && canonical_handle(k) == k,
    ensures
        ascending(keyed(store, found, k, key), keys_of(put(entries, at, found, k, v))),
{
    let keys = keys_of(entries);
    let after = keys_of(put(entries, at, found, k, v));
    let store2 = keyed(store, found, k, key);
    lemma_search_sound(store, keys, key, 0);
    if found {
        assert(after =~= keys);
    } else {
        assert(after =~= keys.insert(at as int, k));
        assert forall|i: int| 0 <= i < after.len() implies resolved(
            store2,
            #[trigger] after[i],
        ).is_some() && (i != at ==> resolved(store2, after[i]) == resolved(
            store,
            keys[if i < at { i } else { i - 1 }],
        )) && (i == at ==> resolved(store2, after[i]) == Some(key)) by {
            if i != at {
                assert(resolved(store, keys[if i < at { i } else { i - 1 }]).is_some());
            }
        }
        assert forall|i: int, j: int| 0 <= i < j < after.len() implies value_order(
            resolved(store2, #[trigger] after[i]).unwrap(),
            resolved(store2, #[trigger] after[j]).unwrap(),
        ) < 0 by {
            let a = resolved(store2, after[i]).unwrap();
            let b = resolved(store2, after[j]).unwrap();
            if j == at {
                assert(key_order(store, keys[i], key).is_some());
            } else if i == at {
                let first = resolved(store, keys[at as int]).unwrap();
                lemma_value_order_swap(first, key);
                if j > at + 1 {
                    assert(value_order(first, resolved(store, keys[j - 1]).unwrap()) < 0);
                    lemma_value_order_transitive(key, first, b);
                }
            } else {
                let x = if i < at { i } else { i - 1 };
                let y = if j < at { j } else { j - 1 };
                assert(value_order(
                    resolved(store, keys[x]).unwrap(),
                    resolved(store, keys[y]).unwrap(),
                ) < 0);
            }
        }
    }
}

/// A map whose keys ascend has ascending keys after a cut.
pub proof fn lemma_cut_keeps_ascending(
    store: Map<u64, ValueView>,
    entries: Seq<(u64, u64)>,
    at: nat,
    found: bool,
)
    requires
        ascending(store, keys_of(entries)),
        found ==> at < entries.len(),
    ensures
        ascending(store, keys_of(cut(entries, at, found))),
{
    let keys = keys_of(entries);
    let after = keys_of(cut(entries, at, found));
    if found {
        assert(after =~= keys.remove(at as int));
        assert forall|i: int| 0 <= i < after.len() implies resolved(
            store,
            #[trigger] after[i],
        ).is_some() by {
            assert(resolved(store, keys[if i < at { i } else { i + 1 }]).is_some());
        }
        assert forall|i: int, j: int| 0 <= i < j < after.len() implies value_order(
            resolved(store, #[trigger] after[i]).unwrap(),
            resolved(store, #[trigger] after[j]).unwrap(),
        ) < 0 by {
            let x = if i < at { i } else { i + 1 };
            let y = if j < at { j } else { j + 1 };
            assert(value_order(
                resolved(store, keys[x]).unwrap(),
                resolved(store, keys[y]).unwrap(),
            ) < 0);
        }
    } else {
        assert(after =~= keys);
    }
}

/// A put under one key of a map whose keys ascend leaves what is found
/// under every other key as it was.
pub proof fn lemma_put_leaves_others(
    store: Map<u64, ValueView>,
    entries: Seq<(u64, u64)>,
    key: ValueView,
    at: nat,
    found: bool,
    k: u64,
    v: u64,
    other: ValueView,
)
    requires
        ascending(store, keys_of(entries)),
        search(store, keys_of(entries), key) == Search::At(at, found),
        !found ==> !store.dom().contains(k) && canonical_handle(k) == k,
        value_order(other, key) != 0,
    ensures
        lookup(keyed(store, found, k, key), put(entries, at, found, k, v), other) == lookup(
            store,
            entries,
            other,
        ),
{
    let keys = keys_of(entries);
    let changed = put(entries, at, found, k, v);
    let after = keys_of(changed);
    let store2 = keyed(store, found, k, key);
    lemma_search_sound(store, keys, key, 0);
    lemma_search_total(store, keys, other, 0);
    lemma_search_sound(store, keys, other, 0);
    let p = search(store, keys, other)->At_0;
    let hit = search(store, keys, other)->At_1;
    lemma_value_order_swap(other, key);
    if found {
        assert(after =~= keys);
        let here = resolved(store, keys[at as int]).unwrap();
        lemma_value_order_equal(here, key);
        if hit {
            lemma_value_order_equal(resolved(store, keys[p as int]).unwrap(), other);
        }
    } else {
        assert(after =~= keys.insert(at as int, k));
        assert forall|i: int| 0 <= i < after.len() && i != at implies key_order(
            store2,
            #[trigger] after[i],
            other,
        ) == key_order(store, keys[if i < at { i } else { i - 1 }], other) by {
            assert(resolved(store, keys[if i < at { i } else { i - 1 }]).is_some());
        }
        assert(key_order(store2, after[at as int], other) == Some(value_order(key, other)));
        if value_order(other, key) < 0 {
            if p > at {
                let mid = resolved(store, keys[at as int]).unwrap();
                assert(key_order(store, keys[at as int], other).is_some());
                lemma_value_order_swap(mid, key);
                lemma_value_order_transitive(key, mid, other);
            }
            if p == at && hit {
                let mid = resolved(store, keys[at as int]).unwrap();
                lemma_value_order_equal(mid, other);
            }
            assert forall|i: int| 0 <= i < p implies key_order(store2, #[trigger] after[i], other)
                .is_some() && key_order(store2, after[i], other).unwrap() < 0 by {
                assert(key_order(store, keys[i], other).is_some());
            }
            lemma_search_complete(store2, after, other, 0, p);
        } else {
            if p < at {
                let mid = resolved(store, keys[p as int]).unwrap();
                assert(key_order(store, keys[p as int], key).is_some());
                lemma_value_order_swap(mid, other);
                lemma_value_order_transitive(other, mid, key);
            }
            assert forall|i: int| 0 <= i < p + 1 implies key_order(
                store2,
                #[trigger] after[i],
                other,
            ).is_some() && key_order(store2, after[i], other).unwrap() < 0 by {
                if i != at {
                    assert(key_order(store, keys[if i < at { i } else { i - 1 }], other).is_some());
                }
            }
            lemma_search_complete(store2, after, other, 0, p + 1);
        }
    }
}

/// Taking one key out of a map whose keys ascend leaves what is found under
/// every other key as it was.
#[verifier::rlimit(80)]
pub proof fn lemma_cut_leaves_others(
    store: Map<u64, ValueView>,
    entries: Seq<(u64, u64)>,
    key: ValueView,
    at: nat,
    found: bool,
    other: ValueView,
)
    requires
        ascending(store, keys_of(entries)),
        search(store, keys_of(entries), key) == Search::At(at, found),
        value_order(other, key) != 0,
    ensures
        lookup(store, cut(entries, at, found), other) == lookup(store, entries, other),
{
    let keys = keys_of(entries);
    let changed = cut(entries, at, found);
    let after = keys_of(changed);
    lemma_search_sound(store, keys, key, 0);
    lemma_search_total(store, keys, other, 0);
    lemma_search_sound(store, keys, other, 0);
    let p = search(store, keys, other)->At_0;
    let hit = search(store, keys, other)->At_1;
    lemma_value_order_swap(other, key);
    if found {
        assert(after =~= keys.remove(at as int));
        let here = resolved(store, keys[at as int]).unwrap();
        lemma_value_order_equal(here, key);
        assert forall|i: int| 0 <= i < after.len() implies key_order(
            store,
            #[trigger] after[i],
            other,
        ) == key_order(store, keys[if i < at { i } else { i + 1 }], other) by {}
        if p <= at {
            if p == at {
                assert(key_order(store, keys[at as int], other).is_some());
                if at + 1 < keys.len() {
                    let next = resolved(store, keys[at as int + 1]).unwrap();
                    assert(value_order(here, next) < 0);
                    lemma_value_order_swap(here, other);
                    lemma_value_order_transitive(other, here, next);
                    lemma_value_order_swap(other, next);
                }
            }
            assert forall|i: int| 0 <= i < p implies key_order(store, #[trigger] after[i], other)
                .is_some() && key_order(store, after[i], other).unwrap() < 0 by {
                assert(key_order(store, keys[i], other).is_some());
            }
            lemma_search_complete(store, after, other, 0, p);
        } else {
            assert forall|i: int| 0 <= i < p - 1 implies key_order(
                store,
                #[trigger] after[i],
                other,
            ).is_some() && key_order(store, after[i], other).unwrap() < 0 by {
                assert(key_order(store, keys[if i < at { i } else { i + 1 }], other).is_some());
            }
            lemma_search_complete(store, after, other, 0, (p - 1) as nat);
        }
    } else {
        assert(after =~= keys);
    }
}

} // verus!
