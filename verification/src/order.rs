//! Sorting pairs of integers, and what sorting leaves unchanged.

use vstd::prelude::*;

verus! {

/// The order of pairs: by the first number, then by the second.
pub open spec fn pair_le(a: (i64, i64), b: (i64, i64)) -> bool {
    a.0 < b.0 || (a.0 == b.0 && a.1 <= b.1)
}

/// Whether a sequence of pairs is in ascending order.
pub open spec fn ascending(pairs: Seq<(i64, i64)>) -> bool {
    forall|i: int, j: int| 0 <= i <= j < pairs.len() ==> pair_le(pairs[i], pairs[j])
}

/// The sum of a measure over a sequence of pairs.
pub open spec fn tally(pairs: Seq<(i64, i64)>, measure: spec_fn((i64, i64)) -> int) -> int
    decreases pairs.len(),
{
    if pairs.len() == 0 {
        0
    } else {
        tally(pairs.drop_last(), measure) + measure(pairs.last())
    }
}

/// Taking one pair out lowers the tally by its measure.
pub proof fn tally_of_removal(
    pairs: Seq<(i64, i64)>,
    i: int,
    measure: spec_fn((i64, i64)) -> int,
)
    requires
        0 <= i < pairs.len(),
    ensures
        tally(pairs, measure) == tally(pairs.remove(i), measure) + measure(pairs[i]),
    decreases pairs.len(),
{
    if i == pairs.len() - 1 {
        assert(pairs.remove(i) =~= pairs.drop_last());
    } else {
        tally_of_removal(pairs.drop_last(), i, measure);
        assert(pairs.remove(i).drop_last() =~= pairs.drop_last().remove(i));
        assert(pairs.remove(i).last() == pairs.last());
    }
}

/// A tally does not depend on the order of the pairs.
pub proof fn tally_ignores_order(
    left: Seq<(i64, i64)>,
    right: Seq<(i64, i64)>,
    measure: spec_fn((i64, i64)) -> int,
)
    requires
        left.to_multiset() == right.to_multiset(),
    ensures
        tally(left, measure) == tally(right, measure),
        left.len() == right.len(),
    decreases left.len(),
{
    left.to_multiset_ensures();
    right.to_multiset_ensures();
    if left.len() > 0 {
        let x = left.last();
        assert(left.contains(x));
        assert(right.to_multiset().count(x) > 0);
        assert(right.contains(x));
        let j = choose|j: int| 0 <= j < right.len() && right[j] == x;
        let last = left.len() - 1;
        assert(left.remove(last) =~= left.drop_last());
        assert(left.remove(last).to_multiset() =~= left.to_multiset().remove(x));
        assert(right.remove(j).to_multiset() =~= right.to_multiset().remove(x));
        tally_ignores_order(left.drop_last(), right.remove(j), measure);
        tally_of_removal(right, j, measure);
    }
}

/// Two orderings of one collection hold the same pairs.
pub proof fn same_members(left: Seq<(i64, i64)>, right: Seq<(i64, i64)>, pair: (i64, i64))
    requires
        left.to_multiset() == right.to_multiset(),
    ensures
        left.contains(pair) == right.contains(pair),
{
    left.to_multiset_ensures();
    right.to_multiset_ensures();
    assert(left.contains(pair) == (left.to_multiset().count(pair) > 0));
    assert(right.contains(pair) == (right.to_multiset().count(pair) > 0));
}

/// A tally adds up over a concatenation.
pub proof fn tally_of_concatenation(
    first: Seq<(i64, i64)>,
    second: Seq<(i64, i64)>,
    measure: spec_fn((i64, i64)) -> int,
)
    ensures
        tally(first + second, measure) == tally(first, measure) + tally(second, measure),
    decreases second.len(),
{
    if second.len() == 0 {
        assert(first + second =~= first);
    } else {
        tally_of_concatenation(first, second.drop_last(), measure);
        assert((first + second).drop_last() =~= first + second.drop_last());
    }
}

/// A measure that is larger on every pair has the larger tally.
pub proof fn tally_is_monotone(
    pairs: Seq<(i64, i64)>,
    smaller: spec_fn((i64, i64)) -> int,
    larger: spec_fn((i64, i64)) -> int,
)
    requires
        forall|i: int| 0 <= i < pairs.len() ==> smaller(#[trigger] pairs[i]) <= larger(pairs[i]),
    ensures
        tally(pairs, smaller) <= tally(pairs, larger),
    decreases pairs.len(),
{
    if pairs.len() > 0 {
        assert forall|i: int| 0 <= i < pairs.drop_last().len() implies smaller(
            #[trigger] pairs.drop_last()[i],
        ) <= larger(pairs.drop_last()[i]) by {
            assert(pairs[i] == pairs.drop_last()[i]);
        }
        tally_is_monotone(pairs.drop_last(), smaller, larger);
        assert(pairs[pairs.len() - 1] == pairs.last());
    }
}

/// `slice::sort_unstable` sorts the pairs in ascending order, by the first number and then
/// by the second, and neither adds nor drops any.
#[verifier::external_body]
pub(crate) fn sort_pairs(pairs: &mut Vec<(i64, i64)>)
    ensures
        ascending(final(pairs)@),
        final(pairs)@.to_multiset() == old(pairs)@.to_multiset(),
{
    pairs.sort_unstable();
}

/// Whether an arrangement lists every position once, from the lowest rank to the highest,
/// and equal ranks in the order they came in.
pub open spec fn is_arrangement(arrangement: Seq<usize>, ranks: Seq<i64>) -> bool {
    &&& arrangement.len() == ranks.len()
    &&& forall|i: int| 0 <= i < arrangement.len() ==> #[trigger] arrangement[i] < ranks.len()
    &&& forall|i: int, j: int|
        0 <= i < j < arrangement.len() ==> {
            let (a, b) = (#[trigger] arrangement[i], #[trigger] arrangement[j]);
            ranks[a as int] < ranks[b as int] || (ranks[a as int] == ranks[b as int] && a < b)
        }
}

/// A position as a signed number that orders as positions do.
spec fn signed_position(position: int) -> int {
    position + i64::MIN
}

/// The order of a list from the lowest rank to the highest, given the rank of each item.
pub fn arrange(ranks: &[i64]) -> (arrangement: Vec<usize>)
    ensures
        is_arrangement(arrangement@, ranks@),
{
    let mut pairs: Vec<(i64, i64)> = Vec::new();
    let length: usize = ranks.len();
    let mut i: usize = 0;
    while i < length
        invariant
            i <= length,
            length == ranks@.len(),
            pairs@.len() == i,
            forall|k: int|
                0 <= k < i ==> (#[trigger] pairs@[k]).0 == ranks@[k] && pairs@[k].1
                    == signed_position(k),
        decreases length - i,
    {
        pairs.push((ranks[i], (i as i128 + i64::MIN as i128) as i64));
        i = i + 1;
    }
    let ghost unsorted = pairs@;
    sort_pairs(&mut pairs);
    proof {
        tally_ignores_order(unsorted, pairs@, |pair: (i64, i64)| 0int);
        assert forall|k: int| 0 <= k < pairs@.len() implies (#[trigger] pairs@[k]).1
            < signed_position(ranks@.len() as int) && pairs@[k].0 == ranks@[pairs@[k].1
            - i64::MIN] by {
            assert(pairs@.contains(pairs@[k]));
            same_members(unsorted, pairs@, pairs@[k]);
            let j = choose|j: int| 0 <= j < unsorted.len() && unsorted[j] == pairs@[k];
            assert(unsorted[j].0 == ranks@[j] && unsorted[j].1 == signed_position(j));
        }
        distinct_in_any_order(unsorted, pairs@);
    }
    let mut arrangement: Vec<usize> = Vec::new();
    let mut i: usize = 0;
    while i < pairs.len()
        invariant
            i <= pairs@.len(),
            pairs@.len() == ranks@.len(),
            forall|k: int|
                0 <= k < pairs@.len() ==> (#[trigger] pairs@[k]).1 < signed_position(
                    ranks@.len() as int,
                ) && pairs@[k].0 == ranks@[pairs@[k].1 - i64::MIN],
            arrangement@.len() == i,
            forall|k: int|
                0 <= k < i ==> signed_position(#[trigger] arrangement@[k] as int) == pairs@[k].1,
        decreases pairs@.len() - i,
    {
        let position: i64 = pairs[i].1;
        assert(position < signed_position(ranks@.len() as int)) by {
            assert(pairs@[i as int].1 == position);
        }
        arrangement.push((position as i128 - i64::MIN as i128) as usize);
        i = i + 1;
    }
    proof {
        assert forall|i: int, j: int| 0 <= i < j < arrangement@.len() implies {
            let (a, b) = (#[trigger] arrangement@[i], #[trigger] arrangement@[j]);
            ranks@[a as int] < ranks@[b as int] || (ranks@[a as int] == ranks@[b as int] && a < b)
        } by {
            assert(pair_le(pairs@[i], pairs@[j]));
            assert(pairs@[i] != pairs@[j]);
        }
    }
    arrangement
}

/// Pairs that differ pairwise still do so in another order.
proof fn distinct_in_any_order(left: Seq<(i64, i64)>, right: Seq<(i64, i64)>)
    requires
        left.to_multiset() == right.to_multiset(),
        forall|i: int, j: int| 0 <= i < j < left.len() ==> left[i] != left[j],
    ensures
        forall|i: int, j: int| 0 <= i < j < right.len() ==> right[i] != right[j],
{
    assert(left.no_duplicates());
    left.lemma_multiset_has_no_duplicates();
    assert forall|x: (i64, i64)| right.to_multiset().contains(x) implies right.to_multiset().count(
        x,
    ) == 1 by {}
    right.lemma_multiset_has_no_duplicates_conv();
}

/// An arrangement leaves no position out.
pub proof fn arrangements_list_everything(arrangement: Seq<usize>, ranks: Seq<i64>, position: int)
    requires
        is_arrangement(arrangement, ranks),
        0 <= position < ranks.len(),
    ensures
        arrangement.contains(position as usize),
        exists|m: int| 0 <= m < arrangement.len() && arrangement[m] == position,
{
    let listed = arrangement.map_values(|i: usize| i as int);
    assert(listed.no_duplicates()) by {
        assert forall|i: int, j: int|
            0 <= i < listed.len() && 0 <= j < listed.len() && i != j implies listed[i]
            != listed[j] by {
            if i < j {
                assert(arrangement[i] != arrangement[j]);
            } else {
                assert(arrangement[j] != arrangement[i]);
            }
        }
    }
    listed.unique_seq_to_set();
    let all = vstd::set_lib::set_int_range(0, ranks.len() as int);
    vstd::set_lib::lemma_int_range(0, ranks.len() as int);
    assert(listed.to_set().subset_of(all)) by {
        assert forall|x: int| listed.to_set().contains(x) implies all.contains(x) by {
            let i = choose|i: int| 0 <= i < listed.len() && listed[i] == x;
            assert(arrangement[i] < ranks.len());
        }
    }
    vstd::set_lib::lemma_subset_equality(listed.to_set(), all);
    assert(listed.to_set().contains(position));
    let m = choose|m: int| 0 <= m < listed.len() && listed[m] == position;
    assert(arrangement[m] == position);
}

/// There is only one arrangement of given ranks.
pub proof fn arrangements_are_unique(left: Seq<usize>, right: Seq<usize>, ranks: Seq<i64>)
    requires
        is_arrangement(left, ranks),
        is_arrangement(right, ranks),
    ensures
        left == right,
{
    assert forall|k: int| 0 <= k < left.len() implies left[k] == right[k] by {
        agreement_up_to(left, right, ranks, k);
    }
    assert(left =~= right);
}

proof fn agreement_up_to(left: Seq<usize>, right: Seq<usize>, ranks: Seq<i64>, k: int)
    requires
        is_arrangement(left, ranks),
        is_arrangement(right, ranks),
        0 <= k < left.len(),
    ensures
        left[k] == right[k],
        forall|i: int| 0 <= i < k ==> left[i] == right[i],
    decreases k,
{
    if k > 0 {
        agreement_up_to(left, right, ranks, k - 1);
    }
    assert(left[k] < ranks.len() && right[k] < ranks.len());
    if left[k] != right[k] {
        // Each stands somewhere in the other list, and neither among what was agreed on.
        arrangements_list_everything(right, ranks, left[k] as int);
        let m = choose|m: int| 0 <= m < right.len() && right[m] == left[k];
        arrangements_list_everything(left, ranks, right[k] as int);
        let n = choose|n: int| 0 <= n < left.len() && left[n] == right[k];
        assert(m > k) by {
            if m < k {
                assert(left[m] == right[m]);
                assert(left[m] != left[k]);
            }
        }
        assert(n > k) by {
            if n < k {
                assert(left[n] == right[n]);
                assert(right[n] != right[k]);
            }
        }
        let (a, b) = (left[k], right[k]);
        assert(ranks[right[k] as int] < ranks[right[m] as int] || (ranks[right[k] as int]
            == ranks[right[m] as int] && right[k] < right[m]));
        assert(ranks[left[k] as int] < ranks[left[n] as int] || (ranks[left[k] as int]
            == ranks[left[n] as int] && left[k] < left[n]));
    }
}

/// An arrangement goes from the lowest rank to the highest, and of equal ranks what came
/// first stays first.
pub proof fn arrangements_ascend(arrangement: Seq<usize>, ranks: Seq<i64>, i: int, j: int)
    requires
        is_arrangement(arrangement, ranks),
        0 <= i < j < arrangement.len(),
    ensures
        arrangement[i] < ranks.len(),
        arrangement[j] < ranks.len(),
        ranks[arrangement[i] as int] <= ranks[arrangement[j] as int],
        ranks[arrangement[i] as int] == ranks[arrangement[j] as int] ==> arrangement[i]
            < arrangement[j],
{
    let (a, b) = (arrangement[i], arrangement[j]);
    assert(a < ranks.len() && b < ranks.len());
}

} // verus!
