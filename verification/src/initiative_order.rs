//! The order of a fight: highest initiative first, and among equal
//! initiatives whoever stood first before.
//!
//! The arrangement is computed and carried out by the `permutation` crate.

use permutation::Permutation;
use std::cmp::Ordering;
use vstd::prelude::*;

verus! {

/// `permutation::Permutation`: a rearrangement of the places of a list.
#[verifier::external_type_specification]
#[verifier::external_body]
pub struct ExPermutation(Permutation);

/// For each place of an arranged list, the place of the source list that
/// the permutation takes its element from.
pub uninterp spec fn permutation_sources(p: Permutation) -> Seq<int>;

/// Every place from 0 to the length occurs exactly once.
pub open spec fn is_arrangement(sources: Seq<int>) -> bool {
    &&& forall|i: int| 0 <= i < sources.len() ==> 0 <= #[trigger] sources[i] < sources.len()
    &&& forall|i: int, j: int|
        0 <= i < j < sources.len() ==> #[trigger] sources[i] != #[trigger] sources[j]
}

/// Taking the keys in the order of `sources` gives them from high to low, and
/// equal keys in the order they had.
pub open spec fn sorts_descending(sources: Seq<int>, keys: Seq<u8>) -> bool {
    &&& sources.len() == keys.len()
    &&& is_arrangement(sources)
    &&& forall|i: int, j: int|
        0 <= i < j < sources.len() ==> keys[#[trigger] sources[i]] > keys[#[trigger] sources[j]]
            || (keys[sources[i]] == keys[sources[j]] && sources[i] < sources[j])
}

/// The list with, at each place, the element that `sources` names for it.
pub open spec fn rearranged<T>(list: Seq<T>, sources: Seq<int>) -> Seq<T> {
    Seq::new(sources.len(), |k: int| list[sources[k]])
}

/// How two initiatives compare when the higher one is to come first.
pub fn descending(a: &u8, b: &u8) -> (o: Ordering)
    ensures
        *b < *a ==> o == Ordering::Less,
        *b == *a ==> o == Ordering::Equal,
        *b > *a ==> o == Ordering::Greater,
{
    if *b < *a {
        Ordering::Less
    } else if *b == *a {
        Ordering::Equal
    } else {
        Ordering::Greater
    }
}

/// `permutation::sort_by` with the comparison [`descending`]: the permutation
/// that puts `keys` in descending order and leaves equal keys in the order
/// they had.
#[verifier::external_body]
pub(crate) fn sorting_permutation(keys: &Vec<u8>) -> (p: Permutation)
    ensures
        sorts_descending(permutation_sources(p), keys@),
{
    permutation::sort_by(keys, |a, b| descending(a, b))
}

/// `Permutation::apply_slice_in_place`: rearranges `list` as the permutation
/// says and leaves the permutation as it was. The permutation has to be a
/// true arrangement of the places of the list: the crate also makes
/// permutations of any numbers, and applying one of those goes wrong.
#[verifier::external_body]
pub(crate) fn apply_permutation<T>(p: &mut Permutation, list: &mut Vec<T>)
    requires
        is_arrangement(permutation_sources(*old(p))),
        old(list)@.len() == permutation_sources(*old(p)).len(),
        old(list)@.len() <= isize::MAX,
    ensures
        permutation_sources(*final(p)) == permutation_sources(*old(p)),
        final(list)@ == rearranged(old(list)@, permutation_sources(*old(p))),
{
    p.apply_slice_in_place(list)
}

/// Only one arrangement sorts given keys: the order from high to low with
/// ties in their old order leaves no choice.
pub proof fn lemma_sorting_is_unique(a: Seq<int>, b: Seq<int>, keys: Seq<u8>)
    requires
        sorts_descending(a, keys),
        sorts_descending(b, keys),
    ensures
        a == b,
{
    assert forall|k: int| 0 <= k < keys.len() implies a[k] == b[k] by {
        lemma_rank(a, keys, k);
        lemma_rank(b, keys, k);
        lemma_rank_decides(keys, a[k], b[k]);
    }
    assert(a =~= b);
}

/// The places that have to come before the place `x`.
pub open spec fn places_before(keys: Seq<u8>, x: int) -> Set<int> {
    Set::new(
        |y: int|
            0 <= y < keys.len() && (keys[y] > keys[x] || (keys[y] == keys[x] && y < x)),
    )
}

/// In a sorting arrangement the place at position `k` has exactly `k` places
/// that come before it.
pub proof fn lemma_rank(sources: Seq<int>, keys: Seq<u8>, k: int)
    requires
        sorts_descending(sources, keys),
        0 <= k < sources.len(),
    ensures
        places_before(keys, sources[k]).finite(),
        places_before(keys, sources[k]).len() == k,
{
    let x = sources[k];
    let earlier = Set::new(|y: int| exists|i: int| 0 <= i < k && #[trigger] sources[i] == y);
    lemma_prefix_set(sources, k);
    assert forall|y: int| places_before(keys, x).contains(y) implies earlier.contains(y) by {
        lemma_arrangement_is_onto(sources, y);
        let i = choose|i: int| 0 <= i < sources.len() && sources[i] == y;
        if i > k {
            assert(keys[sources[k]] > keys[sources[i]] || (keys[sources[k]] == keys[sources[i]]
                && sources[k] < sources[i]));
        }
    }
    assert forall|y: int| earlier.contains(y) implies places_before(keys, x).contains(y) by {
        let i = choose|i: int| 0 <= i < k && #[trigger] sources[i] == y;
        assert(keys[sources[i]] > keys[sources[k]] || (keys[sources[i]] == keys[sources[k]]
            && sources[i] < sources[k]));
    }
    assert(places_before(keys, x) =~= earlier);
}

/// The first `k` places of an arrangement are `k` different places.
pub proof fn lemma_prefix_set(sources: Seq<int>, k: int)
    requires
        is_arrangement(sources),
        0 <= k <= sources.len(),
    ensures
        Set::new(|y: int| exists|i: int| 0 <= i < k && #[trigger] sources[i] == y).finite(),
        Set::new(|y: int| exists|i: int| 0 <= i < k && #[trigger] sources[i] == y).len() == k,
    decreases k,
{
    let now = Set::new(|y: int| exists|i: int| 0 <= i < k && #[trigger] sources[i] == y);
    if k == 0 {
        assert(now =~= Set::<int>::empty());
    } else {
        let less = Set::new(|y: int| exists|i: int| 0 <= i < k - 1 && #[trigger] sources[i] == y);
        lemma_prefix_set(sources, k - 1);
        let x = sources[k - 1];
        assert(!less.contains(x)) by {
            if less.contains(x) {
                let i = choose|i: int| 0 <= i < k - 1 && #[trigger] sources[i] == x;
                assert(sources[i] != sources[k - 1]);
            }
        }
        assert(now =~= less.insert(x)) by {
            assert forall|y: int| now.contains(y) implies less.insert(x).contains(y) by {
                let i = choose|i: int| 0 <= i < k && #[trigger] sources[i] == y;
                if i < k - 1 {
                    assert(less.contains(y));
                }
            }
            assert forall|y: int| less.insert(x).contains(y) implies now.contains(y) by {
                if y == x {
                    assert(sources[k - 1] == y);
                } else {
                    let i = choose|i: int| 0 <= i < k - 1 && #[trigger] sources[i] == y;
                    assert(sources[i] == y);
                }
            }
        }
    }
}

/// An arrangement reaches every place.
pub proof fn lemma_arrangement_is_onto(sources: Seq<int>, y: int)
    requires
        is_arrangement(sources),
        0 <= y < sources.len(),
    ensures
        exists|i: int| 0 <= i < sources.len() && sources[i] == y,
{
    let n = sources.len() as int;
    if !exists|i: int| 0 <= i < sources.len() && sources[i] == y {
        lemma_prefix_set(sources, n);
        let reached = Set::new(|z: int| exists|i: int| 0 <= i < n && #[trigger] sources[i] == z);
        let all = Set::new(|z: int| 0 <= z < n);
        let rest = all.remove(y);
        lemma_range_set(n);
        assert(reached.subset_of(rest)) by {
            assert forall|z: int| reached.contains(z) implies rest.contains(z) by {
                let i = choose|i: int| 0 <= i < n && #[trigger] sources[i] == z;
                assert(sources[i] == z);
            }
        }
        vstd::set_lib::lemma_len_subset(reached, rest);
    }
}

/// There are `n` numbers from 0 up to `n`.
pub proof fn lemma_range_set(n: int)
    requires
        n >= 0,
    ensures
        Set::new(|z: int| 0 <= z < n).finite(),
        Set::new(|z: int| 0 <= z < n).len() == n,
    decreases n,
{
    let now = Set::new(|z: int| 0 <= z < n);
    if n == 0 {
        assert(now =~= Set::<int>::empty());
    } else {
        lemma_range_set(n - 1);
        let less = Set::new(|z: int| 0 <= z < n - 1);
        assert(now =~= less.insert(n - 1));
    }
}

/// Two places with equally many places before them are the same place.
pub proof fn lemma_rank_decides(keys: Seq<u8>, x: int, y: int)
    requires
        0 <= x < keys.len(),
        0 <= y < keys.len(),
        places_before(keys, x).finite(),
        places_before(keys, y).finite(),
        places_before(keys, x).len() == places_before(keys, y).len(),
    ensures
        x == y,
{
    if x != y {
        let bx = places_before(keys, x);
        let by = places_before(keys, y);
        if keys[x] > keys[y] || (keys[x] == keys[y] && x < y) {
            // x comes before y: everything before x is before y, and so is x
            assert(bx.insert(x).subset_of(by));
            assert(!bx.contains(x));
            vstd::set_lib::lemma_len_subset(bx.insert(x), by);
        } else {
            assert(by.insert(y).subset_of(bx));
            assert(!by.contains(y));
            vstd::set_lib::lemma_len_subset(by.insert(y), bx);
        }
    }
}

} // verus!
