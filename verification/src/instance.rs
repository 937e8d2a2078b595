//! The instance data form: which kinds of property can still be added to an
//! object, and which kind the form offers.

use vstd::prelude::*;

verus! {

/// The kinds, in order, that no present property has.
pub open spec fn available_spec(all_kinds: Seq<u32>, present: Seq<u32>) -> Seq<u32> {
    all_kinds.filter(|k: u32| !present.contains(k))
}

/// The kinds of property, from `all_kinds` in order, that the object has
/// none of yet.
pub fn available_properties(all_kinds: &Vec<u32>, present: &Vec<u32>) -> (r: Vec<u32>)
    ensures
        r@ == available_spec(all_kinds@, present@),
{
    let ghost pred = |k: u32| !present@.contains(k);
    let mut r: Vec<u32> = Vec::new();
    let mut i: usize = 0;
    while i < all_kinds.len()
        invariant
            i <= all_kinds.len(),
            pred == (|k: u32| !present@.contains(k)),
            r@ == all_kinds@.subrange(0, i as int).filter(pred),
        decreases all_kinds.len() - i,
    {
        let k = all_kinds[i];
        let mut found = false;
        let mut j: usize = 0;
        while j < present.len()
            invariant
                j <= present.len(),
                found == exists|m: int| 0 <= m < j && present@[m] == k,
            decreases present.len() - j,
        {
            if present[j] == k {
                found = true;
            }
            j = j + 1;
        }
        if !found {
            r.push(k);
        }
        proof {
            assert(all_kinds@.subrange(0, i + 1) =~= all_kinds@.subrange(0, i as int).push(k));
            all_kinds@.subrange(0, i as int).lemma_filter_push(k, pred);
        }
        i = i + 1;
    }
    proof {
        assert(all_kinds@.subrange(0, i as int) =~= all_kinds@);
    }
    r
}

/// The kind the form offers: the selected one while it is available, else
/// the first available kind.
pub open spec fn offered_kind(available: Seq<u32>, selected: u32) -> u32 {
    if available.len() > 0 && !available.contains(selected) {
        available[0]
    } else {
        selected
    }
}

/// Keeps the selection on an available kind.
pub fn reselect(available: &Vec<u32>, selected: u32) -> (r: u32)
    ensures
        r == offered_kind(available@, selected),
        available@.len() > 0 ==> available@.contains(r),
{
    if available.len() == 0 {
        return selected;
    }
    let mut i: usize = 0;
    while i < available.len()
        invariant
            i <= available.len(),
            forall|m: int| 0 <= m < i ==> available@[m] != selected,
        decreases available.len() - i,
    {
        if available[i] == selected {
            proof {
                assert(available@.contains(selected));
            }
            return selected;
        }
        i = i + 1;
    }
    proof {
        assert(available@.contains(available@[0]));
    }
    available[0]
}

} // verus!
