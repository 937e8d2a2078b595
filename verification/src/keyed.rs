//! A map from names to values that keeps its keys in insertion order.

use crate::names::{position_of_name, sort_names, sorted_names, views};
use crate::unique::{first_free_key, is_first_free, numbered_key, numbered_key_string, lemma_candidates_run_out, lemma_first_free_key};
use vstd::prelude::*;
use vstd::string::StringExecFns;

verus! {

/// A map from names to values. No name occurs twice.
pub struct KeyedMap<V> {
    entries: Vec<(String, V)>,
}

/// The index of `k` in `keys`, where it occurs.
pub open spec fn position_of(keys: Seq<Seq<char>>, k: Seq<char>) -> int {
    choose|i: int| 0 <= i < keys.len() && keys[i] == k
}

impl<V> KeyedMap<V> {
    /// The keys, in storage order.
    pub closed spec fn key_seq(&self) -> Seq<Seq<char>> {
        self.entries@.map_values(|e: (String, V)| e.0@)
    }

    /// The values, in storage order.
    pub closed spec fn value_seq(&self) -> Seq<V> {
        self.entries@.map_values(|e: (String, V)| e.1)
    }

    /// The map from each key to its value.
    pub open spec fn as_map(&self) -> Map<Seq<char>, V> {
        Map::new(
            |k: Seq<char>| self.key_seq().contains(k),
            |k: Seq<char>| self.value_seq()[position_of(self.key_seq(), k)],
        )
    }

    /// No key occurs twice.
    pub open spec fn wf(&self) -> bool {
        self.key_seq().no_duplicates()
    }

    /// The keys are distinct and there is one value per key.
    pub proof fn lemma_well_formed(&self)
        requires
            self.wf(),
        ensures
            self.key_seq().no_duplicates(),
            self.key_seq().len() == self.value_seq().len(),
            self.as_map().dom() == self.key_seq().to_set(),
            forall|i: int|
                0 <= i < self.key_seq().len() ==> #[trigger] self.as_map()[self.key_seq()[i]]
                    == self.value_seq()[i],
    {
        assert(self.as_map().dom() =~= self.key_seq().to_set());
        assert forall|i: int| 0 <= i < self.key_seq().len() implies #[trigger] self.as_map()[self.key_seq()[i]]
            == self.value_seq()[i] by {
            let k = self.key_seq()[i];
            assert(self.key_seq().contains(k));
            let p = position_of(self.key_seq(), k);
            assert(0 <= p < self.key_seq().len() && self.key_seq()[p] == k);
        }
    }

    /// An empty map.
    pub fn new() -> (m: Self)
        ensures
            m.wf(),
            m.key_seq() == Seq::<Seq<char>>::empty(),
            m.as_map() == Map::<Seq<char>, V>::empty(),
    {
        let m = KeyedMap { entries: Vec::new() };
        assert(m.key_seq() =~= Seq::<Seq<char>>::empty());
        assert(m.as_map() =~= Map::<Seq<char>, V>::empty());
        m
    }

    /// The number of keys.
    pub fn len(&self) -> (n: usize)
        requires
            self.wf(),
        ensures
            n == self.key_seq().len(),
            n == self.as_map().len(),
    {
        proof {
            self.lemma_well_formed();
            self.key_seq().unique_seq_to_set();
        }
        self.entries.len()
    }

    /// Where `key` is stored, if it is a key.
    pub fn find(&self, key: &String) -> (r: Option<usize>)
        ensures
            match r {
                Some(i) => i < self.key_seq().len() && self.key_seq()[i as int] == key@,
                None => !self.as_map().contains_key(key@),
            },
    {
        let mut i: usize = 0;
        while i < self.entries.len()
            invariant
                i <= self.entries.len(),
                forall|j: int| 0 <= j < i ==> #[trigger] self.key_seq()[j] != key@,
            decreases self.entries.len() - i,
        {
            if self.entries[i].0 == *key {
                return Some(i);
            }
            i = i + 1;
        }
        proof {
            if self.key_seq().contains(key@) {
                let j = choose|j: int| 0 <= j < self.key_seq().len() && self.key_seq()[j] == key@;
                assert(self.key_seq()[j] != key@);
            }
        }
        None
    }

    /// Whether `key` is a key.
    pub fn contains_key(&self, key: &String) -> (b: bool)
        ensures
            b == self.as_map().contains_key(key@),
    {
        match self.find(key) {
            Some(i) => {
                proof {
                    assert(self.key_seq().contains(key@));
                }
                true
            },
            None => false,
        }
    }

    /// The value stored under `key`, if any.
    pub fn get(&self, key: &String) -> (r: Option<&V>)
        requires
            self.wf(),
        ensures
            match r {
                Some(v) => self.as_map().contains_key(key@) && *v == self.as_map()[key@],
                None => !self.as_map().contains_key(key@),
            },
    {
        proof {
            self.lemma_well_formed();
        }
        match self.find(key) {
            Some(i) => {
                proof {
                    assert(self.key_seq().contains(key@));
                    assert(self.value_seq()[i as int] == self.entries@[i as int].1);
                }
                Some(&self.entries[i].1)
            },
            None => None,
        }
    }

    /// Stores `value` under `key`, replacing the value that was there; a new
    /// key goes last.
    pub fn insert(&mut self, key: String, value: V)
        requires
            old(self).wf(),
        ensures
            final(self).wf(),
            final(self).as_map() == old(self).as_map().insert(key@, value),
            old(self).as_map().contains_key(key@) ==> final(self).key_seq() == old(self).key_seq(),
            !old(self).as_map().contains_key(key@) ==> final(self).key_seq() == old(self).key_seq().push(key@),
    {
        proof {
            self.lemma_well_formed();
        }
        let ghost old_keys = self.key_seq();
        let ghost old_vals = self.value_seq();
        let ghost old_map = self.as_map();
        let ghost k = key@;
        match self.find(&key) {
            Some(i) => {
                let _ = self.entries.remove(i);
                self.entries.insert(i, (key, value));
                proof {
                    assert(self.key_seq() =~= old_keys);
                    assert(self.value_seq() =~= old_vals.update(i as int, value));
                    self.lemma_well_formed();
                    assert forall|q: Seq<char>| #[trigger] self.as_map().contains_key(q) implies
                        self.as_map()[q] == old_map.insert(k, value)[q] by {
                        let j = choose|j: int| 0 <= j < old_keys.len() && old_keys[j] == q;
                        assert(self.as_map()[self.key_seq()[j]] == self.value_seq()[j]);
                        if j != i {
                            assert(old_map[old_keys[j]] == old_vals[j]);
                        }
                    }
                    assert(self.as_map() =~= old_map.insert(k, value));
                }
            },
            None => {
                self.entries.push((key, value));
                proof {
                    assert(self.key_seq() =~= old_keys.push(k));
                    assert(self.value_seq() =~= old_vals.push(value));
                    assert(self.key_seq().no_duplicates()) by {
                        assert forall|a: int, b: int| 0 <= a < b < self.key_seq().len() implies
                            self.key_seq()[a] != self.key_seq()[b] by {
                            if b == old_keys.len() {
                                assert(old_keys.contains(old_keys[a]));
                            }
                        }
                    }
                    self.lemma_well_formed();
                    assert forall|q: Seq<char>| #[trigger] self.as_map().contains_key(q) implies
                        self.as_map()[q] == old_map.insert(k, value)[q] by {
                        let j = choose|j: int| 0 <= j < self.key_seq().len() && self.key_seq()[j] == q;
                        assert(self.as_map()[self.key_seq()[j]] == self.value_seq()[j]);
                        if j < old_keys.len() {
                            assert(old_map[old_keys[j]] == old_vals[j]);
                            assert(old_keys.contains(q));
                        }
                    }
                    assert forall|q: Seq<char>| #[trigger] old_map.insert(k, value).contains_key(q) implies
                        self.as_map().contains_key(q) by {
                        if q == k {
                            assert(self.key_seq()[old_keys.len() as int] == q);
                        } else {
                            let j = choose|j: int| 0 <= j < old_keys.len() && old_keys[j] == q;
                            assert(self.key_seq()[j] == q);
                        }
                    }
                    assert(self.as_map() =~= old_map.insert(k, value));
                }
            },
        }
    }

    /// Takes `key` and its value out of the map.
    pub fn remove(&mut self, key: &String) -> (r: Option<V>)
        requires
            old(self).wf(),
        ensures
            final(self).wf(),
            final(self).as_map() == old(self).as_map().remove(key@),
            r is Some <==> old(self).as_map().contains_key(key@),
            r matches Some(v) ==> v == old(self).as_map()[key@],
            r is Some ==> final(self).key_seq() == old(self).key_seq().remove(
                position_of(old(self).key_seq(), key@),
            ),
            r is None ==> final(self).key_seq() == old(self).key_seq(),
    {
        proof {
            self.lemma_well_formed();
        }
        let ghost old_keys = self.key_seq();
        let ghost old_vals = self.value_seq();
        let ghost old_map = self.as_map();
        let ghost k = key@;
        match self.find(key) {
            Some(i) => {
                let (_, v) = self.entries.remove(i);
                proof {
                    assert(old_keys.contains(k));
                    let p = position_of(old_keys, k);
                    assert(p == i);
                    assert(old_map[old_keys[i as int]] == old_vals[i as int]);
                    assert(self.key_seq() =~= old_keys.remove(i as int));
                    assert(self.value_seq() =~= old_vals.remove(i as int));
                    assert(self.key_seq().no_duplicates()) by {
                        assert forall|a: int, b: int| 0 <= a < b < self.key_seq().len() implies
                            self.key_seq()[a] != self.key_seq()[b] by {
                            let a0 = if a < i { a } else { a + 1 };
                            let b0 = if b < i { b } else { b + 1 };
                            assert(self.key_seq()[a] == old_keys[a0]);
                            assert(self.key_seq()[b] == old_keys[b0]);
                        }
                    }
                    self.lemma_well_formed();
                    assert forall|q: Seq<char>| #[trigger] old_map.remove(k).contains_key(q) implies
                        self.as_map().contains_key(q) by {
                        let j = choose|j: int| 0 <= j < old_keys.len() && old_keys[j] == q;
                        assert(j != i);
                        let j1 = if j < i { j } else { j - 1 };
                        assert(self.key_seq()[j1] == q);
                    }
                    assert forall|q: Seq<char>| #[trigger] self.as_map().contains_key(q) implies
                        old_map.remove(k).contains_key(q) && self.as_map()[q] == old_map.remove(k)[q] by {
                        let j = choose|j: int| 0 <= j < self.key_seq().len() && self.key_seq()[j] == q;
                        let j0 = if j < i { j } else { j + 1 };
                        assert(self.key_seq()[j] == old_keys[j0]);
                        assert(old_keys.contains(q));
                        assert(self.as_map()[self.key_seq()[j]] == self.value_seq()[j]);
                        assert(old_map[old_keys[j0]] == old_vals[j0]);
                    }
                    assert(self.as_map() =~= old_map.remove(k));
                }
                Some(v)
            },
            None => {
                proof {
                    assert(self.as_map() =~= old_map.remove(k));
                }
                None
            },
        }
    }

    /// Stores `default` under `key` when `key` is not a key yet.
    pub fn ensure_key(&mut self, key: String, default: V)
        requires
            old(self).wf(),
        ensures
            final(self).wf(),
            old(self).as_map().contains_key(key@) ==> final(self).as_map() == old(self).as_map()
                && final(self).key_seq() == old(self).key_seq(),
            !old(self).as_map().contains_key(key@) ==> final(self).as_map() == old(self).as_map().insert(key@, default)
                && final(self).key_seq() == old(self).key_seq().push(key@),
    {
        if !self.contains_key(&key) {
            self.insert(key, default);
        }
    }

    /// A name built from `base` that is not a key: `base` itself when it is
    /// free, else `base (n)` with the smallest `n` whose name is free.
    pub fn guarentee_unique_key(&self, base: String) -> (r: String)
        requires
            self.wf(),
        ensures
            !self.as_map().contains_key(r@),
            r@ == first_free_key(self.as_map().dom(), base@),
    {
        proof {
            self.lemma_well_formed();
        }
        let len = self.entries.len();
        let mut n: usize = 0;
        let mut cand = base.clone();
        while self.contains_key(&cand)
            invariant
                self.wf(),
                len == self.key_seq().len(),
                n <= len,
                cand@ == numbered_key(base@, n as nat),
                forall|m: nat| m < n ==> self.as_map().contains_key(#[trigger] numbered_key(base@, m)),
            decreases len - n,
        {
            proof {
                assert forall|m: nat| m <= n implies self.key_seq().contains(
                    #[trigger] numbered_key(base@, m),
                ) by {
                    assert(self.as_map().contains_key(numbered_key(base@, m)));
                }
                lemma_candidates_run_out(self.key_seq(), base@, n as nat);
            }
            n = n + 1;
            cand = numbered_key_string(&base, n);
        }
        proof {
            assert(is_first_free(self.as_map().dom(), base@, n as nat));
            lemma_first_free_key(self.as_map().dom(), base@, n as nat);
        }
        cand
    }

    /// Puts `v` in place of the value stored at index `i`, and hands back
    /// the value that was there.
    pub fn replace_value_at(&mut self, i: usize, v: V) -> (r: V)
        requires
            old(self).wf(),
            i < old(self).key_seq().len(),
        ensures
            final(self).wf(),
            final(self).key_seq() == old(self).key_seq(),
            final(self).value_seq() == old(self).value_seq().update(i as int, v),
            r == old(self).value_seq()[i as int],
            final(self).as_map() == old(self).as_map().insert(old(self).key_seq()[i as int], v),
    {
        proof {
            self.lemma_well_formed();
        }
        let ghost old_keys = self.key_seq();
        let ghost old_vals = self.value_seq();
        let ghost old_map = self.as_map();
        let (k, old_v) = self.entries.remove(i);
        self.entries.insert(i, (k, v));
        proof {
            assert(self.key_seq() =~= old_keys);
            assert(self.value_seq() =~= old_vals.update(i as int, v));
            self.lemma_well_formed();
            let key = old_keys[i as int];
            assert forall|q: Seq<char>| #[trigger] self.as_map().contains_key(q) implies self.as_map()[q]
                == old_map.insert(key, v)[q] by {
                let j = choose|j: int| 0 <= j < old_keys.len() && old_keys[j] == q;
                assert(self.as_map()[self.key_seq()[j]] == self.value_seq()[j]);
                if j != i {
                    assert(old_map[old_keys[j]] == old_vals[j]);
                }
            }
            assert(self.as_map() =~= old_map.insert(key, v));
        }
        old_v
    }

    /// Keeps only the keys that `allowed` lists.
    pub fn retain_keys(&mut self, allowed: &Vec<String>)
        requires
            old(self).wf(),
        ensures
            final(self).wf(),
            final(self).as_map() == old(self).as_map().restrict(views(allowed@).to_set()),
    {
        let keys = self.keys();
        let ghost orig = self.as_map();
        let ghost ks = self.key_seq();
        let ghost allowed_set = views(allowed@).to_set();
        let mut i: usize = 0;
        while i < keys.len()
            invariant
                i <= keys.len(),
                views(keys@) == ks,
                allowed_set == views(allowed@).to_set(),
                self.wf(),
                self.as_map() == orig.remove_keys(ks.subrange(0, i as int).to_set().difference(allowed_set)),
            decreases keys.len() - i,
        {
            let ghost before = ks.subrange(0, i as int).to_set().difference(allowed_set);
            proof {
                assert(views(keys@)[i as int] == keys@[i as int]@);
            }
            let found = position_of_name(allowed, &keys[i]);
            if found.is_none() {
                let _ = self.remove(&keys[i]);
            }
            proof {
                let k = ks[i as int];
                assert(ks.subrange(0, i + 1) =~= ks.subrange(0, i as int).push(k));
                ks.subrange(0, i as int).lemma_push_to_set_commute(k);
                if allowed_set.contains(k) {
                    assert(views(allowed@).contains(k));
                    assert(found is Some);
                    assert(ks.subrange(0, i + 1).to_set().difference(allowed_set) =~= before);
                } else {
                    assert(found is None) by {
                        if let Some(p) = found {
                            assert(views(allowed@)[p as int] == k);
                            assert(views(allowed@).contains(k));
                        }
                    }
                    assert(ks.subrange(0, i + 1).to_set().difference(allowed_set) =~= before.insert(k));
                    assert(self.as_map() =~= orig.remove_keys(before.insert(k)));
                }
            }
            i = i + 1;
        }
        proof {
            self.lemma_well_formed();
            assert(ks.subrange(0, i as int) =~= ks);
            assert(orig.dom() == ks.to_set()) by {
                assert(orig.dom() =~= ks.to_set());
            }
            assert(self.as_map() =~= orig.restrict(allowed_set));
        }
    }

    /// The keys in ascending order.
    pub fn sorted_keys(&self) -> (r: Vec<String>)
        requires
            self.wf(),
        ensures
            sorted_names(views(r@)),
            views(r@).no_duplicates(),
            views(r@).to_set() == self.as_map().dom(),
    {
        let mut r = self.keys();
        let ghost unsorted = r@;
        sort_names(&mut r);
        proof {
            self.lemma_well_formed();
            crate::names::lemma_views_multiset(unsorted, r@);
            let a = views(unsorted);
            let b = views(r@);
            a.lemma_multiset_has_no_duplicates();
            b.lemma_multiset_has_no_duplicates_conv();
            assert(b.to_set() =~= a.to_set()) by {
                assert forall|q: Seq<char>| #[trigger] b.to_set().contains(q) == a.to_set().contains(q) by {
                    vstd::seq_lib::to_multiset_contains(a, q);
                    vstd::seq_lib::to_multiset_contains(b, q);
                }
            }
        }
        r
    }

    /// The keys in storage order.
    pub fn keys(&self) -> (r: Vec<String>)
        ensures
            views(r@) == self.key_seq(),
    {
        let mut r: Vec<String> = Vec::new();
        let mut i: usize = 0;
        while i < self.entries.len()
            invariant
                i <= self.entries.len(),
                r.len() == i,
                views(r@) == self.key_seq().subrange(0, i as int),
            decreases self.entries.len() - i,
        {
            let ghost old_r = r@;
            let k = self.entries[i].0.clone();
            r.push(k);
            proof {
                assert(self.key_seq()[i as int] == k@);
                assert forall|j: int| 0 <= j < i + 1 implies #[trigger] views(r@)[j] == self.key_seq()[j] by {
                    if j < i {
                        assert(r@[j] == old_r[j]);
                        assert(views(old_r)[j] == self.key_seq().subrange(0, i as int)[j]);
                    }
                }
            }
            i = i + 1;
            proof {
                assert(views(r@) =~= self.key_seq().subrange(0, i as int));
            }
        }
        proof {
            assert(self.key_seq().subrange(0, i as int) =~= self.key_seq());
        }
        r
    }
}

} // verus!
