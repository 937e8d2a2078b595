//! Names of editable items: lexicographic order, sorting and lookup.

use vstd::prelude::*;
use vstd::string::StrSliceExecFns;

verus! {

/// Lexicographic `<=` on character sequences; for strings it agrees with
/// the byte order that `String`'s `Ord` uses.
pub open spec fn name_le(a: Seq<char>, b: Seq<char>) -> bool
    decreases a.len(),
{
    if a.len() == 0 {
        true
    } else if b.len() == 0 {
        false
    } else if (a[0] as int) < (b[0] as int) {
        true
    } else if a[0] == b[0] {
        name_le(a.drop_first(), b.drop_first())
    } else {
        false
    }
}

/// The character views of a sequence of strings.
pub open spec fn views(v: Seq<String>) -> Seq<Seq<char>> {
    v.map_values(|s: String| s@)
}

/// Every name is `<=` each name after it.
pub open spec fn sorted_names(v: Seq<Seq<char>>) -> bool {
    forall|i: int, j: int| 0 <= i < j < v.len() ==> name_le(#[trigger] v[i], #[trigger] v[j])
}

pub proof fn lemma_name_le_reflexive(a: Seq<char>)
    ensures
        name_le(a, a),
    decreases a.len(),
{
    if a.len() > 0 {
        lemma_name_le_reflexive(a.drop_first());
    }
}

pub proof fn lemma_name_le_total(a: Seq<char>, b: Seq<char>)
    ensures
        name_le(a, b) || name_le(b, a),
    decreases a.len(),
{
    if a.len() > 0 && b.len() > 0 && a[0] == b[0] {
        lemma_name_le_total(a.drop_first(), b.drop_first());
    }
    if a.len() > 0 && b.len() > 0 && a[0] != b[0] {
        assert((a[0] as int) != (b[0] as int));
    }
}

pub proof fn lemma_name_le_transitive(a: Seq<char>, b: Seq<char>, c: Seq<char>)
    requires
        name_le(a, b),
        name_le(b, c),
    ensures
        name_le(a, c),
    decreases a.len(),
{
    if a.len() > 0 && b.len() > 0 && c.len() > 0 && a[0] == b[0] && b[0] == c[0] {
        lemma_name_le_transitive(a.drop_first(), b.drop_first(), c.drop_first());
    }
}

pub proof fn lemma_name_le_antisymmetric(a: Seq<char>, b: Seq<char>)
    requires
        name_le(a, b),
        name_le(b, a),
    ensures
        a == b,
    decreases a.len(),
{
    if a.len() > 0 && b.len() > 0 {
        if (a[0] as int) < (b[0] as int) {
            assert(false);
        } else if (b[0] as int) < (a[0] as int) {
            assert(false);
        } else {
            assert(a[0] == b[0]);
            lemma_name_le_antisymmetric(a.drop_first(), b.drop_first());
            assert(a.drop_first().len() == b.drop_first().len());
            assert(a.len() == b.len());
            assert(a =~= b) by {
                assert forall|i: int| 0 <= i < a.len() implies a[i] == b[i] by {
                    if i > 0 {
                        assert(a[i] == a.drop_first()[i - 1]);
                        assert(b[i] == b.drop_first()[i - 1]);
                    }
                }
            }
        }
    }
}

/// Names that agree before position `i` and differ there are ordered by
/// the code points of their characters at `i`.
pub proof fn lemma_name_le_first_difference(a: Seq<char>, b: Seq<char>, i: int)
    requires
        0 <= i < a.len(),
        i < b.len(),
        forall|j: int| 0 <= j < i ==> a[j] == b[j],
        a[i] != b[i],
    ensures
        name_le(a, b) <==> (a[i] as int) < (b[i] as int),
    decreases i,
{
    if i > 0 {
        let a1 = a.drop_first();
        let b1 = b.drop_first();
        assert(a[0] == b[0]);
        assert forall|j: int| 0 <= j < i - 1 implies a1[j] == b1[j] by {
            assert(a[j + 1] == b[j + 1]);
        }
        lemma_name_le_first_difference(a1, b1, i - 1);
        assert(a1[i - 1] == a[i] && b1[i - 1] == b[i]);
    } else {
        assert((a[0] as int) != (b[0] as int));
    }
}

/// A name comes before every longer name it begins, and after none of
/// them.
pub proof fn lemma_name_le_prefix(a: Seq<char>, b: Seq<char>)
    requires
        a.len() <= b.len(),
        forall|j: int| 0 <= j < a.len() ==> a[j] == b[j],
    ensures
        name_le(a, b),
        a.len() < b.len() ==> !name_le(b, a),
    decreases a.len(),
{
    if a.len() > 0 {
        let a1 = a.drop_first();
        let b1 = b.drop_first();
        assert(a[0] == b[0]);
        assert forall|j: int| 0 <= j < a1.len() implies a1[j] == b1[j] by {
            assert(a[j + 1] == b[j + 1]);
        }
        lemma_name_le_prefix(a1, b1);
    }
}

/// Compares two names in lexicographic order.
pub fn name_less_or_equal(a: &String, b: &String) -> (r: bool)
    ensures
        r == name_le(a@, b@),
{
    let sa = a.as_str();
    let sb = b.as_str();
    let la = sa.unicode_len();
    let lb = sb.unicode_len();
    let mut i: usize = 0;
    proof {
        assert(a@.skip(0) =~= a@);
        assert(b@.skip(0) =~= b@);
    }
    while i < la && i < lb
        invariant
            la == a@.len(),
            lb == b@.len(),
            sa@ == a@,
            sb@ == b@,
            i <= la,
            i <= lb,
            name_le(a@, b@) == name_le(a@.skip(i as int), b@.skip(i as int)),
        decreases la - i,
    {
        let ca = sa.get_char(i);
        let cb = sb.get_char(i);
        proof {
            assert(a@.skip(i as int)[0] == ca);
            assert(b@.skip(i as int)[0] == cb);
            assert(a@.skip(i as int).drop_first() =~= a@.skip(i + 1));
            assert(b@.skip(i as int).drop_first() =~= b@.skip(i + 1));
        }
        if (ca as u32) < (cb as u32) {
            return true;
        }
        if ca != cb {
            return false;
        }
        i = i + 1;
    }
    proof {
        assert(a@.skip(i as int).len() == la - i);
        assert(b@.skip(i as int).len() == lb - i);
        assert(a@.skip(0) =~= a@);
    }
    i == la
}


/// Sorts names in ascending lexicographic order, keeping every name.
pub fn sort_names(v: &mut Vec<String>)
    ensures
        final(v)@.to_multiset() == old(v)@.to_multiset(),
        final(v)@.len() == old(v)@.len(),
        sorted_names(views(final(v)@)),
{
    let n = v.len();
    let mut i: usize = 0;
    while i < n
        invariant
            n == v.len(),
            i <= n,
            v@.to_multiset() == old(v)@.to_multiset(),
            forall|a: int, b: int| 0 <= a < b < i ==> name_le(#[trigger] v@[a]@, #[trigger] v@[b]@),
        decreases n - i,
    {
        let ghost before = v@;
        let x = v.remove(i);
        let mut j: usize = 0;
        while j < i
            invariant
                j <= i,
                i < n,
                v.len() == n - 1,
                before.len() == n,
                x == before[i as int],
                v@ == before.remove(i as int),
                forall|k: int| 0 <= k < j ==> name_le(#[trigger] v@[k]@, x@),
            ensures
                j <= i,
                v@ == before.remove(i as int),
                forall|k: int| 0 <= k < j ==> name_le(#[trigger] v@[k]@, x@),
                j < i ==> !name_le(v@[j as int]@, x@),
            decreases i - j,
        {
            if !name_less_or_equal(&v[j], &x) {
                break;
            }
            j = j + 1;
        }
        let ghost mid = v@;
        v.insert(j, x);
        proof {
            vstd::seq_lib::to_multiset_remove(before, i as int);
            vstd::seq_lib::to_multiset_insert(mid, j as int, x);
            assert(before.to_multiset().contains(x)) by {
                assert(before[i as int] == x);
                vstd::seq_lib::to_multiset_contains(before, x);
            }
            assert(v@.to_multiset() =~= before.to_multiset());
            assert forall|a: int, b: int| 0 <= a < b < i + 1 implies name_le(
                #[trigger] v@[a]@,
                #[trigger] v@[b]@,
            ) by {
                if j < i {
                    lemma_name_le_total(mid[j as int]@, x@);
                }
                if b < j {
                    assert(v@[a] == before[a]);
                    assert(v@[b] == before[b]);
                } else if b == j {
                    assert(v@[a] == mid[a]);
                } else if a < j {
                    assert(v@[a] == before[a]);
                    assert(v@[b] == before[b - 1]);
                } else if a == j {
                    assert(v@[b] == mid[b - 1]);
                    if b - 1 > j {
                        assert(mid[j as int] == before[j as int]);
                        assert(mid[b - 1] == before[b - 1]);
                        lemma_name_le_transitive(x@, mid[j as int]@, mid[b - 1]@);
                    }
                } else {
                    assert(v@[a] == before[a - 1]);
                    assert(v@[b] == before[b - 1]);
                }
            }
        }
        i = i + 1;
    }
    proof {
        assert forall|a: int, b: int| 0 <= a < b < views(v@).len() implies name_le(
            #[trigger] views(v@)[a],
            #[trigger] views(v@)[b],
        ) by {
            assert(views(v@)[a] == v@[a]@);
            assert(views(v@)[b] == v@[b]@);
        }
    }
}


/// The first index at which `k` occurs in `s`, when it occurs.
pub open spec fn first_index(s: Seq<Seq<char>>, k: Seq<char>) -> int {
    choose|i: int| 0 <= i < s.len() && s[i] == k && forall|j: int| 0 <= j < i ==> s[j] != k
}

/// The first index at which `key` occurs in `names`.
pub fn position_of_name(names: &Vec<String>, key: &String) -> (r: Option<usize>)
    ensures
        match r {
            Some(i) => i < names.len() && views(names@)[i as int] == key@ && i == first_index(
                views(names@),
                key@,
            ),
            None => !views(names@).contains(key@),
        },
{
    let mut i: usize = 0;
    while i < names.len()
        invariant
            i <= names.len(),
            forall|j: int| 0 <= j < i ==> #[trigger] views(names@)[j] != key@,
        decreases names.len() - i,
    {
        if names[i] == *key {
            proof {
                let s = views(names@);
                assert(s[i as int] == key@);
                assert(0 <= i < s.len() && s[i as int] == key@ && forall|j: int| 0 <= j < i ==> s[j] != key@);
                let c = first_index(s, key@);
                if c < i {
                    assert(s[c] != key@);
                } else if c > i {
                    assert(s[i as int] != key@);
                }
            }
            return Some(i);
        }
        i = i + 1;
    }
    proof {
        let s = views(names@);
        if s.contains(key@) {
            let j = choose|j: int| 0 <= j < s.len() && s[j] == key@;
            assert(s[j] != key@);
        }
    }
    None
}


/// Strings with the same multiset have views with the same multiset.
pub proof fn lemma_views_multiset(a: Seq<String>, b: Seq<String>)
    requires
        a.to_multiset() == b.to_multiset(),
    ensures
        views(a).to_multiset() == views(b).to_multiset(),
    decreases a.len(),
{
    broadcast use vstd::multiset::group_multiset_axioms;
    vstd::seq_lib::to_multiset_len(a);
    vstd::seq_lib::to_multiset_len(b);
    if a.len() == 0 {
        assert(views(a) =~= views(b));
    } else {
        let x = a.last();
        let rest = a.drop_last();
        assert(a =~= rest.push(x));
        vstd::seq_lib::to_multiset_contains(a, x);
        vstd::seq_lib::to_multiset_contains(b, x);
        let p = choose|p: int| 0 <= p < b.len() && b[p] == x;
        let b1 = b.remove(p);
        vstd::seq_lib::to_multiset_remove(b, p);
        vstd::seq_lib::to_multiset_remove(a, a.len() - 1);
        assert(a.remove(a.len() - 1) =~= rest);
        lemma_views_multiset(rest, b1);
        assert(views(a) =~= views(rest).push(x@));
        assert(views(b) =~= views(b1).insert(p, x@));
        vstd::seq_lib::to_multiset_insert(views(rest), views(rest).len() as int, x@);
        assert(views(rest).insert(views(rest).len() as int, x@) =~= views(rest).push(x@));
        vstd::seq_lib::to_multiset_insert(views(b1), p, x@);
    }
}

} // verus!
