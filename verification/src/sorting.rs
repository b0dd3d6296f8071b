//! Stable sorting, through itertools.

use vstd::prelude::*;
use itertools::Itertools;

verus! {

/// Position `i` holding `a` comes before position `j` holding `b`:
/// by the first component, then the second, then by position.
pub open spec fn sorts_before(a: (u64, i128), i: int, b: (u64, i128), j: int) -> bool {
    ||| a.0 < b.0
    ||| a.0 == b.0 && a.1 < b.1
    ||| a.0 == b.0 && a.1 == b.1 && i < j
}

/// `order` lists every position of `keys` once, ascending by key, positions
/// with equal keys in their original order.
pub open spec fn is_stable_order(keys: Seq<(u64, i128)>, order: Seq<usize>) -> bool {
    &&& order.len() == keys.len()
    &&& forall|k: int| 0 <= k < order.len() ==> #[trigger] order[k] < keys.len()
    &&& forall|i: usize| i < keys.len() ==> #[trigger] order.contains(i)
    &&& forall|k: int, l: int|
        0 <= k < l < order.len() ==> sorts_before(
            keys[order[k] as int],
            order[k] as int,
            keys[order[l] as int],
            order[l] as int,
        )
}

/// The positions of `keys` in ascending order of their keys, by itertools'
/// `sorted_by_key`, a stable sort: claims the order described by `is_stable_order`.
#[verifier::external_body]
pub(crate) fn stable_order(keys: &Vec<(u64, i128)>) -> (order: Vec<usize>)
    ensures
        is_stable_order(keys@, order@),
{
    keys.iter().copied().enumerate().sorted_by_key(|&(_, key)| key).map(|(index, _)| index).collect()
}

} // verus!
