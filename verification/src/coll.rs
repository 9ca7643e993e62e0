//! Helpers on collections.

use vstd::prelude::*;

verus! {

/// The elements of the vector, or nothing when there is none.
pub open spec fn optional_elements<T>(optional_vector: Option<Vec<T>>) -> Seq<T> {
    match optional_vector {
        Some(v) => v@,
        None => Seq::empty(),
    }
}

/// References to the elements of the vector, in order; empty for `None`.
pub fn flatten_optional_vector<T>(optional_vector: &Option<Vec<T>>) -> (r: Vec<&T>)
    ensures
        r@.len() == optional_elements(*optional_vector).len(),
        forall|i: int| 0 <= i < r@.len() ==> *#[trigger] r@[i] == optional_elements(*optional_vector)[i],
{
    let mut result: Vec<&T> = Vec::new();
    if let Some(vector) = optional_vector {
        let mut i: usize = 0;
        while i < vector.len()
            invariant
                i <= vector@.len(),
                *optional_vector == Some(*vector),
                result@.len() == i,
                forall|j: int| 0 <= j < i ==> *#[trigger] result@[j] == vector@[j],
            decreases vector@.len() - i,
        {
            result.push(&vector[i]);
            i += 1;
        }
    }
    result
}

/// The elements of `indexed` at the positions `indices`, in the order of `indices`.
pub fn select_by_indices<V: Copy>(indexed: &[V], indices: &[usize]) -> (r: Vec<V>)
    requires
        forall|i: int| 0 <= i < indices@.len() ==> #[trigger] indices@[i] < indexed@.len(),
    ensures
        r@.len() == indices@.len(),
        forall|i: int| 0 <= i < indices@.len() ==> #[trigger] r@[i] == indexed@[indices@[i] as int],
{
    let mut result: Vec<V> = Vec::new();
    let mut i: usize = 0;
    while i < indices.len()
        invariant
            i <= indices@.len(),
            forall|k: int| 0 <= k < indices@.len() ==> #[trigger] indices@[k] < indexed@.len(),
            result@.len() == i,
            forall|j: int| 0 <= j < i ==> #[trigger] result@[j] == indexed@[indices@[j] as int],
        decreases indices@.len() - i,
    {
        let k = indices[i];
        result.push(indexed[k]);
        i += 1;
    }
    result
}

/// `n` clones of `t`.
pub fn replicate<T: Clone>(n: usize, t: T) -> (r: Vec<T>)
    ensures
        r@.len() == n,
        forall|i: int| 0 <= i < n ==> cloned(t, #[trigger] r@[i]),
{
    let mut result: Vec<T> = Vec::new();
    let mut i: usize = 0;
    while i < n
        invariant
            i <= n,
            result@.len() == i,
            forall|j: int| 0 <= j < i ==> cloned(t, #[trigger] result@[j]),
        decreases n - i,
    {
        result.push(t.clone());
        i += 1;
    }
    result
}

} // verus!
