//! The order of keyframes and when one may be deleted. Keyframes are
//! known here by their frames alone.

use vstd::prelude::*;

verus! {

/// A keyframe can be deleted only while more than one is left.
pub fn can_delete_keyframe(count: usize) -> (r: bool)
    ensures
        r == (count > 1),
{
    count > 1
}

/// Keyframe `a` comes before keyframe `b`: an earlier frame, or the same
/// frame and listed earlier.
pub open spec fn keyframe_before(frames: Seq<usize>, a: usize, b: usize) -> bool {
    frames[a as int] < frames[b as int] || (frames[a as int] == frames[b as int] && a < b)
}

/// `order` lists each of the `n` keyframes once.
pub open spec fn lists_each_once(order: Seq<usize>, n: nat) -> bool {
    &&& order.len() == n
    &&& forall|i: int| 0 <= i < order.len() ==> #[trigger] order[i] < n
    &&& order.no_duplicates()
}

/// `order` lists the keyframes by frame, keyframes on the same frame in
/// the order they were listed.
pub open spec fn by_frame(frames: Seq<usize>, order: Seq<usize>) -> bool {
    forall|a: int, b: int|
        0 <= a < b < order.len() ==> keyframe_before(frames, #[trigger] order[a], #[trigger] order[b])
}

/// The order that sorts keyframes by frame and keeps keyframes on the same
/// frame in the order they were listed: entry `i` of the result is the
/// position, in `frames`, of the keyframe that goes `i`th.
pub fn sorted_order(frames: &Vec<usize>) -> (r: Vec<usize>)
    ensures
        lists_each_once(r@, frames@.len()),
        by_frame(frames@, r@),
{
    let mut r: Vec<usize> = Vec::new();
    let mut k: usize = 0;
    while k < frames.len()
        invariant
            k <= frames@.len(),
            lists_each_once(r@, k as nat),
            by_frame(frames@, r@),
        decreases frames@.len() - k,
    {
        let fk = frames[k];
        let mut p: usize = 0;
        while p < r.len() && frames[r[p]] <= fk
            invariant
                k < frames@.len(),
                p <= r@.len(),
                lists_each_once(r@, k as nat),
                forall|q: int| 0 <= q < p ==> frames@[#[trigger] r@[q] as int] <= fk,
            decreases r@.len() - p,
        {
            p = p + 1;
        }
        let ghost before = r@;
        proof {
            assert forall|q: int| p <= q < before.len() implies frames@[#[trigger] before[q] as int] > fk by {
                assert(before[q] < k);
                if q > p {
                    assert(keyframe_before(frames@, before[p as int], before[q]));
                }
            }
        }
        r.insert(p, k);
        proof {
            let s = r@;
            assert(s == before.insert(p as int, k));
            assert forall|i: int| 0 <= i < s.len() implies #[trigger] s[i] < k + 1 by {
                if i != p {
                    let i0 = if i < p { i } else { i - 1 };
                    assert(s[i] == before[i0]);
                }
            }
            assert forall|a: int, b: int| 0 <= a < b < s.len() implies s[a] != s[b] by {
                let a0 = if a < p { a } else { a - 1 };
                let b0 = if b < p { b } else { b - 1 };
                if a != p && b != p {
                    assert(s[a] == before[a0] && s[b] == before[b0]);
                } else if a == p {
                    assert(s[b] == before[b0]);
                    assert(before[b0] < k);
                } else {
                    assert(s[a] == before[a0]);
                    assert(before[a0] < k);
                }
            }
            assert forall|a: int, b: int| 0 <= a < b < s.len() implies keyframe_before(
                frames@,
                #[trigger] s[a],
                #[trigger] s[b],
            ) by {
                let a0 = if a < p { a } else { a - 1 };
                let b0 = if b < p { b } else { b - 1 };
                if a != p && b != p {
                    assert(s[a] == before[a0] && s[b] == before[b0]);
                    assert(keyframe_before(frames@, before[a0], before[b0]));
                } else if a == p {
                    assert(s[b] == before[b0]);
                    assert(frames@[before[b0] as int] > fk);
                } else {
                    assert(s[a] == before[a0]);
                    assert(frames@[before[a0] as int] <= fk);
                    assert(before[a0] < k);
                }
            }
        }
        k = k + 1;
    }
    r
}

} // verus!
