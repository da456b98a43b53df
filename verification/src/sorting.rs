//! Sorting through `itertools`, stated as properties of the result.
use itertools::Itertools;
use vstd::prelude::*;

verus! {

/// Pairs in ascending order of their first component.
pub open spec fn sorted_by_id(s: Seq<(u64, u64)>) -> bool {
    forall|i: int, j: int| 0 <= i <= j < s.len() ==> s[i].0 <= s[j].0
}

/// Calls `Itertools::sorted_unstable_by_key` with the first component as key: the
/// result holds the same pairs, in ascending order of that key; pairs with equal
/// keys may come in any order.
#[verifier::external_body]
pub(crate) fn sort_unstable_by_id(v: Vec<(u64, u64)>) -> (res: Vec<(u64, u64)>)
    ensures
        res@.to_multiset() == v@.to_multiset(),
        sorted_by_id(res@),
{
    v.into_iter().sorted_unstable_by_key(|p| p.0).collect()
}

} // verus!
