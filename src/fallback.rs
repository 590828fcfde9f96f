//! The decision of the semantic fallback: given one similarity score per
//! action phrase, pick the best phrase if it clears the threshold.
//!
//! Scores are integers that order as the similarities do.
use vstd::prelude::*;

verus! {

/// `k` holds the first of the highest scores.
pub open spec fn first_best(scores: Seq<i32>, k: int) -> bool {
    &&& 0 <= k < scores.len()
    &&& forall|j: int| 0 <= j < scores.len() ==> scores[j] <= scores[k]
    &&& forall|j: int| 0 <= j < k ==> scores[j] < scores[k]
}

/// The index of the first highest score, when that score exceeds
/// `threshold`; nothing when no score does.
pub fn best_match(scores: &[i32], threshold: i32) -> (r: Option<usize>)
    ensures
        match r {
            Some(k) => first_best(scores@, k as int) && scores@[k as int] > threshold,
            None => forall|j: int| 0 <= j < scores@.len() ==> scores@[j] <= threshold,
        },
{
    if scores.len() == 0 {
        return None;
    }
    let mut best: usize = 0;
    let mut i: usize = 1;
    while i < scores.len()
        invariant
            1 <= i <= scores@.len(),
            best < i,
            forall|j: int| 0 <= j < i ==> scores@[j] <= scores@[best as int],
            forall|j: int| 0 <= j < best ==> scores@[j] < scores@[best as int],
        decreases scores@.len() - i,
    {
        if scores[i] > scores[best] {
            best = i;
        }
        i = i + 1;
    }
    if scores[best] > threshold {
        Some(best)
    } else {
        None
    }
}

} // verus!
