//! Choices made by the size report.
use vstd::prelude::*;

verus! {

/// The position of the first smallest size, if there is any size.
pub fn most_compact(sizes: &[usize]) -> (r: Option<usize>)
    ensures
        sizes@.len() == 0 <==> r is None,
        r matches Some(i) ==> {
            &&& i < sizes@.len()
            &&& forall|j: int| 0 <= j < sizes@.len() ==> sizes@[i as int] <= #[trigger] sizes@[j]
            &&& forall|j: int| 0 <= j < i ==> sizes@[i as int] < #[trigger] sizes@[j]
        },
{
    if sizes.len() == 0 {
        return None;
    }
    let mut best: usize = 0;
    let mut k: usize = 1;
    while k < sizes.len()
        invariant
            0 < k <= sizes@.len(),
            best < k,
            forall|j: int| 0 <= j < k ==> sizes@[best as int] <= #[trigger] sizes@[j],
            forall|j: int| 0 <= j < best ==> sizes@[best as int] < #[trigger] sizes@[j],
        decreases sizes@.len() - k,
    {
        if sizes[k] < sizes[best] {
            best = k;
        }
        k = k + 1;
    }
    Some(best)
}

} // verus!
