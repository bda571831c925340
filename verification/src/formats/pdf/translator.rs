//! Putting the translations of a page's lines back in line order: they are
//! finished concurrently and arrive in any order, each with the index of its
//! line.

use vstd::prelude::*;

verus! {

/// For results that arrived with line indices `idxs` (in arrival order),
/// the arrival that fills each line slot: slot `k` holds the last arrival
/// with index `k`, or nothing when no arrival had that index. There are
/// slots up to the largest index and no further.
pub fn ordered_slots(idxs: &Vec<usize>) -> (r: Vec<Option<usize>>)
    requires
        forall|j: int| 0 <= j < idxs.len() ==> idxs[j] < usize::MAX,
    ensures
        forall|j: int| 0 <= j < idxs.len() ==> idxs[j] < r.len(),
        forall|k: int|
            0 <= k < r.len() ==> (#[trigger] r[k] matches Some(j) ==> j < idxs.len()
                && idxs[j as int] == k && forall|l: int| j < l < idxs.len() ==> idxs[l] != k),
        forall|k: int|
            0 <= k < r.len() && #[trigger] r[k] is None ==> forall|j: int|
                0 <= j < idxs.len() ==> idxs[j] != k,
        r.len() == 0 || r[r.len() - 1] is Some,
{
    let mut r: Vec<Option<usize>> = Vec::new();
    let mut i: usize = 0;
    while i < idxs.len()
        invariant
            i <= idxs.len(),
            forall|j: int| 0 <= j < idxs.len() ==> idxs[j] < usize::MAX,
            forall|j: int| 0 <= j < i ==> idxs[j] < r.len(),
            forall|k: int|
                0 <= k < r.len() ==> (#[trigger] r[k] matches Some(j) ==> j < i
                    && idxs[j as int] == k && forall|l: int| j < l < i ==> idxs[l] != k),
            forall|k: int|
                0 <= k < r.len() && #[trigger] r[k] is None ==> forall|j: int|
                    0 <= j < i ==> idxs[j] != k,
            r.len() == 0 || r[r.len() - 1] is Some,
        decreases idxs.len() - i,
    {
        let k = idxs[i];
        let ghost before = r@;
        while r.len() <= k
            invariant
                k < usize::MAX,
                before.len() <= r.len(),
                r.len() > before.len() ==> r.len() <= k + 1,
                forall|q: int| 0 <= q < before.len() ==> r[q] == before[q],
                forall|q: int| before.len() <= q < r.len() ==> r[q] is None,
            decreases k + 1 - r.len(),
        {
            r.push(None);
        }
        r.set(k, Some(i));
        proof {
            assert forall|q: int| 0 <= q < r.len() implies (#[trigger] r[q] matches Some(j) ==> j
                < i + 1 && idxs[j as int] == q && forall|l: int| j < l < i + 1 ==> idxs[l] != q) by {
                if q != k as int && q < before.len() {
                    assert(r[q] == before[q]);
                }
            }
            assert forall|q: int|
                0 <= q < r.len() && #[trigger] r[q] is None implies forall|j: int|
                0 <= j < i + 1 ==> idxs[j] != q by {
                if q < before.len() {
                    assert(before[q] is None);
                }
            }
        }
        i = i + 1;
    }
    r
}

} // verus!
