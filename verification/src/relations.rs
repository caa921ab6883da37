//! Small relations that the statements about arithmetic are made of.

use vstd::prelude::*;

verus! {

/// Always true.  It marks, for the prover, the value that an `exists`
/// asks for: to show the `exists`, name the value with it.
pub open spec fn chosen<A>(value: A) -> bool {
    true
}

/// Every entry of `result` comes from the entry of `source` at its place
/// by one `step`.
pub open spec fn entrywise<T>(step: spec_fn(T, T) -> bool, source: Seq<T>, result: Seq<T>) -> bool {
    &&& result.len() == source.len()
    &&& forall|k: int| 0 <= k < source.len() ==> step(source[k], #[trigger] result[k])
}

/// Every entry of `result` comes from the entries of `left` and `right` at
/// its place by one `step`.
pub open spec fn pairwise<T>(
    step: spec_fn(T, T, T) -> bool,
    left: Seq<T>,
    right: Seq<T>,
    result: Seq<T>,
) -> bool {
    &&& result.len() == left.len()
    &&& result.len() == right.len()
    &&& forall|k: int| 0 <= k < left.len() ==> step(left[k], right[k], #[trigger] result[k])
}

} // verus!
