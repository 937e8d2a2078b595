//! A list of names shown to the user beside the map they name: adding a
//! fresh name, deleting one and renaming one, in both at once.

use crate::keyed::KeyedMap;
use crate::names::{first_index, position_of_name, views};
use crate::unique::first_free_key;
use vstd::prelude::*;

verus! {

/// The list names each key of the map exactly once.
pub open spec fn tracks_keys<V>(names: Seq<Seq<char>>, m: Map<Seq<char>, V>) -> bool {
    &&& names.no_duplicates()
    &&& names.to_set() == m.dom()
}

/// The list after deleting `key`: its first occurrence goes, if it has one.
pub open spec fn without_name(names: Seq<Seq<char>>, key: Seq<char>) -> Seq<Seq<char>> {
    if names.contains(key) {
        names.remove(first_index(names, key))
    } else {
        names
    }
}

/// The list after renaming `old_key` to `new_key` in place.
pub open spec fn renamed(names: Seq<Seq<char>>, old_key: Seq<char>, new_key: Seq<char>) -> Seq<Seq<char>> {
    if names.contains(old_key) {
        names.update(first_index(names, old_key), new_key)
    } else {
        names
    }
}

proof fn lemma_first_index(s: Seq<Seq<char>>, k: Seq<char>)
    requires
        s.contains(k),
    ensures
        0 <= first_index(s, k) < s.len(),
        s[first_index(s, k)] == k,
{
    let j = choose|j: int| 0 <= j < s.len() && s[j] == k;
    assert(exists|i: int| 0 <= i < s.len() && s[i] == k && forall|j: int| 0 <= j < i ==> s[j] != k) by {
        lemma_least_index(s, k, j);
    }
}

proof fn lemma_least_index(s: Seq<Seq<char>>, k: Seq<char>, j: int)
    requires
        0 <= j < s.len(),
        s[j] == k,
    ensures
        exists|i: int| 0 <= i < s.len() && s[i] == k && forall|j: int| 0 <= j < i ==> s[j] != k,
    decreases j,
{
    if exists|i: int| 0 <= i < j && s[i] == k {
        let i = choose|i: int| 0 <= i < j && s[i] == k;
        lemma_least_index(s, k, i);
    } else {
        assert(forall|i: int| 0 <= i < j ==> s[i] != k);
    }
}

/// Adds a fresh name built from `base` at the front of the list, and stores
/// `value` under it.
pub fn add_first<V>(names: &mut Vec<String>, data: &mut KeyedMap<V>, base: String, value: V)
    requires
        old(data).wf(),
    ensures
        final(data).wf(),
        !old(data).as_map().contains_key(first_free_key(old(data).as_map().dom(), base@)),
        final(data).as_map() == old(data).as_map().insert(
            first_free_key(old(data).as_map().dom(), base@),
            value,
        ),
        views(final(names)@) == seq![first_free_key(old(data).as_map().dom(), base@)] + views(
            old(names)@,
        ),
        tracks_keys(views(old(names)@), old(data).as_map()) ==> tracks_keys(
            views(final(names)@),
            final(data).as_map(),
        ),
{
    let ghost old_names = views(names@);
    let key = data.guarentee_unique_key(base);
    data.insert(key.clone(), value);
    names.insert(0, key);
    proof {
        assert(views(names@) =~= seq![key@] + old_names);
        let s = views(names@);
        if tracks_keys(old_names, old(data).as_map()) {
            assert(!old_names.contains(key@)) by {
                if old_names.contains(key@) {
                    assert(old_names.to_set().contains(key@));
                }
            }
            assert(s.no_duplicates()) by {
                assert forall|a: int, b: int| 0 <= a < b < s.len() implies s[a] != s[b] by {
                    if a == 0 {
                        assert(s[b] == old_names[b - 1]);
                    } else {
                        assert(s[a] == old_names[a - 1]);
                        assert(s[b] == old_names[b - 1]);
                    }
                }
            }
            assert(s.to_set() =~= data.as_map().dom()) by {
                assert forall|q: Seq<char>| s.to_set().contains(q) implies data.as_map().dom().contains(q) by {
                    let i = choose|i: int| 0 <= i < s.len() && s[i] == q;
                    if i > 0 {
                        assert(old_names[i - 1] == q);
                        assert(old_names.to_set().contains(q));
                    }
                }
                assert forall|q: Seq<char>| data.as_map().dom().contains(q) implies s.to_set().contains(q) by {
                    if q == key@ {
                        assert(s[0] == q);
                    } else {
                        assert(old_names.to_set().contains(q));
                        let i = choose|i: int| 0 <= i < old_names.len() && old_names[i] == q;
                        assert(s[i + 1] == q);
                    }
                }
            }
        }
    }
}


/// Removes the first occurrence of `key` from the list, and `key` from the
/// map, when the list holds it.
pub fn delete_named<V>(names: &mut Vec<String>, data: &mut KeyedMap<V>, key: &String)
    requires
        old(data).wf(),
    ensures
        final(data).wf(),
        views(final(names)@) == without_name(views(old(names)@), key@),
        views(old(names)@).contains(key@) ==> final(data).as_map() == old(data).as_map().remove(key@),
        !views(old(names)@).contains(key@) ==> final(data).as_map() == old(data).as_map(),
        tracks_keys(views(old(names)@), old(data).as_map()) ==> tracks_keys(
            views(final(names)@),
            final(data).as_map(),
        ),
{
    let ghost old_names = views(names@);
    if let Some(idx) = position_of_name(names, key) {
        names.remove(idx);
        let _ = data.remove(key);
        proof {
            lemma_first_index(old_names, key@);
            assert(views(names@) =~= old_names.remove(idx as int));
            let s = views(names@);
            if tracks_keys(old_names, old(data).as_map()) {
                assert(s.no_duplicates()) by {
                    assert forall|a: int, b: int| 0 <= a < b < s.len() implies s[a] != s[b] by {
                        let a0 = if a < idx { a } else { a + 1 };
                        let b0 = if b < idx { b } else { b + 1 };
                        assert(s[a] == old_names[a0]);
                        assert(s[b] == old_names[b0]);
                    }
                }
                assert(s.to_set() =~= data.as_map().dom()) by {
                    assert forall|q: Seq<char>| s.to_set().contains(q) implies data.as_map().dom().contains(q) by {
                        let i = choose|i: int| 0 <= i < s.len() && s[i] == q;
                        let i0 = if i < idx { i } else { i + 1 };
                        assert(old_names[i0] == q);
                        assert(old_names.to_set().contains(q));
                        assert(i0 != idx);
                    }
                    assert forall|q: Seq<char>| data.as_map().dom().contains(q) implies s.to_set().contains(q) by {
                        assert(old_names.to_set().contains(q));
                        let i = choose|i: int| 0 <= i < old_names.len() && old_names[i] == q;
                        assert(i != idx);
                        let i1 = if i < idx { i } else { i - 1 };
                        assert(s[i1] == q);
                    }
                }
            }
        }
    }
}

/// Renames `old_key` to a fresh name built from `new_key`, keeping its
/// value, and puts the new name where the old one stood in the list.
pub fn rename_named<V>(names: &mut Vec<String>, data: &mut KeyedMap<V>, old_key: &String, new_key: String)
    requires
        old(data).wf(),
        old(data).as_map().contains_key(old_key@),
    ensures
        final(data).wf(),
        final(data).as_map() == old(data).as_map().remove(old_key@).insert(
            first_free_key(old(data).as_map().remove(old_key@).dom(), new_key@),
            old(data).as_map()[old_key@],
        ),
        views(final(names)@) == renamed(
            views(old(names)@),
            old_key@,
            first_free_key(old(data).as_map().remove(old_key@).dom(), new_key@),
        ),
        tracks_keys(views(old(names)@), old(data).as_map()) ==> tracks_keys(
            views(final(names)@),
            final(data).as_map(),
        ),
{
    let ghost old_names = views(names@);
    let ghost old_map = data.as_map();
    let info = data.remove(old_key).unwrap();
    let ghost mid_map = data.as_map();
    let fresh = data.guarentee_unique_key(new_key);
    data.insert(fresh.clone(), info);
    if let Some(idx) = position_of_name(names, old_key) {
        names.remove(idx);
        names.insert(idx, fresh);
        proof {
            lemma_first_index(old_names, old_key@);
            assert(views(names@) =~= old_names.update(idx as int, fresh@));
        }
    }
    proof {
        assert(views(names@) == renamed(old_names, old_key@, fresh@));
        if tracks_keys(old_names, old_map) {
            lemma_rename_tracks(old_names, old_map, old_key@, fresh@, old_map[old_key@]);
        }
    }
}

/// Renaming keeps a list that names each key once naming each key once.
proof fn lemma_rename_tracks<V>(
    old_names: Seq<Seq<char>>,
    old_map: Map<Seq<char>, V>,
    old_key: Seq<char>,
    fresh: Seq<char>,
    v: V,
)
    requires
        tracks_keys(old_names, old_map),
        old_map.contains_key(old_key),
        !old_map.remove(old_key).contains_key(fresh),
    ensures
        tracks_keys(renamed(old_names, old_key, fresh), old_map.remove(old_key).insert(fresh, v)),
{
    let s = renamed(old_names, old_key, fresh);
    let new_map = old_map.remove(old_key).insert(fresh, v);
    assert(old_names.to_set().contains(old_key));
    assert(old_names.contains(old_key));
    let idx = first_index(old_names, old_key);
    lemma_first_index(old_names, old_key);
    assert(s == old_names.update(idx, fresh));
    assert(fresh != old_key ==> !old_names.contains(fresh)) by {
        if fresh != old_key && old_names.contains(fresh) {
            assert(old_names.to_set().contains(fresh));
        }
    }
    assert(s.no_duplicates()) by {
        assert forall|a: int, b: int| 0 <= a < b < s.len() implies s[a] != s[b] by {
            if a == idx {
                assert(s[b] == old_names[b]);
                if fresh == old_key {
                    assert(old_names[idx] == old_key);
                }
            } else if b == idx {
                assert(s[a] == old_names[a]);
                if fresh == old_key {
                    assert(old_names[idx] == old_key);
                }
            } else {
                assert(s[a] == old_names[a]);
                assert(s[b] == old_names[b]);
            }
        }
    }
    assert(s.to_set() =~= new_map.dom()) by {
        assert forall|q: Seq<char>| s.to_set().contains(q) implies new_map.dom().contains(q) by {
            let i = choose|i: int| 0 <= i < s.len() && s[i] == q;
            if i != idx {
                assert(old_names[i] == q);
                assert(old_names.to_set().contains(q));
                assert(old_names[idx] == old_key);
                assert(q != old_key);
            }
        }
        assert forall|q: Seq<char>| new_map.dom().contains(q) implies s.to_set().contains(q) by {
            if q == fresh {
                assert(s[idx] == q);
            } else {
                assert(old_names.to_set().contains(q));
                let i = choose|i: int| 0 <= i < old_names.len() && old_names[i] == q;
                assert(q != old_key);
                assert(old_names[idx] == old_key);
                assert(i != idx);
                assert(s[i] == q);
            }
        }
    }
}

} // verus!
