//! Which process owns which row of the matrix in the parallel elimination.
use vstd::prelude::*;

verus! {

/// The owner of each of the `n` rows when they are dealt round-robin over
/// `size` processes: row `i` goes to process `i % size`, so every owner is a
/// valid rank and each process gets every `size`-th row.
pub fn row_owners(n: usize, size: usize) -> (owners: Vec<usize>)
    requires
        size > 0,
    ensures
        owners.len() == n,
        forall|i: int| 0 <= i < n ==> #[trigger] owners[i] == i % (size as int),
        forall|i: int| 0 <= i < n ==> #[trigger] owners[i] < size,
{
    let mut owners: Vec<usize> = Vec::new();
    let mut idx: usize = 0;
    while idx < n
        invariant
            idx <= n,
            size > 0,
            owners.len() == idx,
            forall|i: int| 0 <= i < idx ==> #[trigger] owners[i] == i % (size as int),
        decreases n - idx,
    {
        owners.push(idx % size);
        idx = idx + 1;
    }
    owners
}

} // verus!
