//! Which battery size comes out best.
//!
//! Sizes and payback periods enter as ranks: integers that order as the figures do.

use vstd::prelude::*;

use crate::order;

verus! {

/// Whether a size is the fastest payback: it pays back, none pays back sooner, and none
/// before it pays back as soon.
pub open spec fn is_fastest(paybacks: Seq<Option<i64>>, best: int) -> bool {
    &&& 0 <= best < paybacks.len()
    &&& paybacks[best] is Some
    &&& forall|i: int|
        0 <= i < paybacks.len() && (#[trigger] paybacks[i]) is Some ==> paybacks[best]->0
            <= paybacks[i]->0
    &&& forall|i: int|
        0 <= i < best && (#[trigger] paybacks[i]) is Some ==> paybacks[best]->0 < paybacks[i]->0
}

/// Index of the fastest payback, if anything pays back at all.
pub fn fastest_payback(paybacks: &[Option<i64>]) -> (best: Option<usize>)
    ensures
        match best {
            Some(best) => is_fastest(paybacks@, best as int),
            None => forall|i: int| 0 <= i < paybacks@.len() ==> (#[trigger] paybacks@[i]) is None,
        },
{
    let mut best: Option<(usize, i64)> = None;
    let mut i: usize = 0;
    while i < paybacks.len()
        invariant
            i <= paybacks@.len(),
            match best {
                Some((index, rank)) => index < i && paybacks@[index as int] == Some(rank)
                    && is_fastest(paybacks@.take(i as int), index as int),
                None => forall|k: int| 0 <= k < i ==> (#[trigger] paybacks@[k]) is None,
            },
        decreases paybacks@.len() - i,
    {
        let ghost before = best;
        if let Some(rank) = paybacks[i] {
            best = match best {
                Some((index, fastest)) => if rank < fastest {
                    Some((i, rank))
                } else {
                    Some((index, fastest))
                },
                None => Some((i, rank)),
            };
        }
        proof {
            let seen = paybacks@.take(i as int);
            let now = paybacks@.take(i + 1);
            assert forall|k: int| 0 <= k < i implies #[trigger] now[k] == seen[k] by {}
            assert(now[i as int] == paybacks@[i as int]);
            if let Some((index, fastest)) = before {
                assert(seen[index as int] == Some(fastest));
                assert(now[index as int] == Some(fastest));
                let (chosen, lowest) = best->Some_0;
                assert forall|k: int|
                    0 <= k < now.len() && (#[trigger] now[k]) is Some implies lowest
                    <= now[k]->0 by {
                    if k < i {
                        assert(seen[k] is Some);
                    }
                }
                assert forall|k: int|
                    0 <= k < chosen && (#[trigger] now[k]) is Some implies lowest
                    < now[k]->0 by {
                    if k < i {
                        assert(seen[k] is Some);
                    }
                }
            } else {
                assert forall|k: int| 0 <= k < i implies (#[trigger] now[k]) is None by {
                    assert(paybacks@[k] is None);
                }
            }
        }
        i = i + 1;
    }
    proof {
        assert(paybacks@.take(i as int) =~= paybacks@);
    }
    match best {
        Some((index, _)) => Some(index),
        None => None,
    }
}

/// The position that follows the best, if there is one.
pub open spec fn following(best: Option<usize>, sizes: int) -> Option<usize> {
    match best {
        Some(best) => if best + 1 < sizes {
            Some((best + 1) as usize)
        } else {
            None
        },
        None => None,
    }
}

/// The position one step larger than the best, which is what says whether the next kilowatt
/// hour is worth buying.
pub fn next_after_best(best: Option<usize>, sizes: usize) -> (next: Option<usize>)
    requires
        best matches Some(best) ==> best < usize::MAX,
    ensures
        next == following(best, sizes as int),
{
    match best {
        Some(best) => if best + 1 < sizes {
            Some(best + 1)
        } else {
            None
        },
        None => None,
    }
}

/// Whether positions list every rank that occurs once, from the lowest to the highest.
pub open spec fn are_distinct_ascending(positions: Seq<usize>, ranks: Seq<i64>) -> bool {
    &&& forall|i: int| 0 <= i < positions.len() ==> #[trigger] positions[i] < ranks.len()
    &&& forall|i: int, j: int|
        0 <= i < j < positions.len() ==> ranks[#[trigger] positions[i] as int]
            < ranks[#[trigger] positions[j] as int]
    &&& forall|k: int| 0 <= k < ranks.len() ==> has_rank(positions, ranks, #[trigger] ranks[k])
}

/// Whether one of the positions has a rank.
pub open spec fn has_rank(positions: Seq<usize>, ranks: Seq<i64>, rank: i64) -> bool {
    exists|i: int| 0 <= i < positions.len() && ranks[#[trigger] positions[i] as int] == rank
}

/// The sizes to try, from the smallest to the largest and each once, given the rank of each
/// that was asked for.
pub fn distinct_ascending(ranks: &[i64]) -> (positions: Vec<usize>)
    ensures
        are_distinct_ascending(positions@, ranks@),
{
    let arrangement: Vec<usize> = order::arrange(ranks);
    let mut positions: Vec<usize> = Vec::new();
    let mut i: usize = 0;
    while i < arrangement.len()
        invariant
            i <= arrangement@.len(),
            order::is_arrangement(arrangement@, ranks@),
            forall|k: int| 0 <= k < positions@.len() ==> #[trigger] positions@[k] < ranks@.len(),
            forall|k: int, l: int|
                0 <= k < l < positions@.len() ==> ranks@[#[trigger] positions@[k] as int]
                    < ranks@[#[trigger] positions@[l] as int],
            (positions@.len() > 0) == (i > 0),
            i > 0 ==> ranks@[positions@.last() as int] == ranks@[arrangement@[i - 1] as int],
            forall|k: int|
                0 <= k < i ==> has_rank(
                    positions@,
                    ranks@,
                    ranks@[#[trigger] arrangement@[k] as int],
                ),
        decreases arrangement@.len() - i,
    {
        let position: usize = arrangement[i];
        let ghost before = positions@;
        let repeated: bool = positions.len() > 0 && ranks[positions[positions.len() - 1]]
            == ranks[position];
        if !repeated {
            proof {
                if i > 0 {
                    assert(arrangement@[i - 1] < ranks@.len() && arrangement@[i as int]
                        < ranks@.len());
                    assert forall|k: int| 0 <= k < positions@.len() implies ranks@[
                        #[trigger] positions@[k] as int] < ranks@[position as int] by {
                        let last = positions@.len() - 1;
                        assert(ranks@[positions@[last] as int] < ranks@[position as int]);
                        if k < last {
                            assert(ranks@[positions@[k] as int] < ranks@[positions@[last] as int]);
                        }
                    }
                }
            }
            positions.push(position);
        }
        proof {
            let last = positions@.len() - 1;
            assert(ranks@[positions@[last] as int] == ranks@[position as int]);
            assert forall|k: int| 0 <= k < i + 1 implies has_rank(
                positions@,
                ranks@,
                ranks@[#[trigger] arrangement@[k] as int],
            ) by {
                if k < i {
                    let rank = ranks@[arrangement@[k] as int];
                    assert(has_rank(before, ranks@, rank));
                    let m = choose|m: int|
                        0 <= m < before.len() && ranks@[#[trigger] before[m] as int] == rank;
                    assert(ranks@[positions@[m] as int] == rank);
                }
            }
        }
        i = i + 1;
    }
    proof {
        assert forall|k: int| 0 <= k < ranks@.len() implies has_rank(
            positions@,
            ranks@,
            #[trigger] ranks@[k],
        ) by {
            order::arrangements_list_everything(arrangement@, ranks@, k);
            let m = choose|m: int| 0 <= m < arrangement@.len() && arrangement@[m] == k;
            assert(has_rank(positions@, ranks@, ranks@[arrangement@[m] as int]));
        }
    }
    positions
}

/// The fastest payback is the shortest there is, and of equally short ones the first: no
/// other position is the fastest, and what never pays back is never it.
pub proof fn the_fastest_payback_is_the_shortest(
    paybacks: Seq<Option<i64>>,
    best: int,
    other: int,
)
    requires
        is_fastest(paybacks, best),
        0 <= other < paybacks.len(),
    ensures
        0 <= best < paybacks.len(),
        paybacks[best] is Some,
        paybacks[other] is Some ==> paybacks[best]->0 <= paybacks[other]->0,
        paybacks[other] is Some && paybacks[other]->0 == paybacks[best]->0 ==> best <= other,
        is_fastest(paybacks, other) ==> other == best,
{
}

/// The sizes to try ascend, each is one of those asked for, and every one asked for is tried.
pub proof fn the_sizes_to_try_ascend(positions: Seq<usize>, ranks: Seq<i64>, k: int, i: int)
    requires
        are_distinct_ascending(positions, ranks),
        0 <= k < ranks.len(),
        0 < i < positions.len(),
    ensures
        positions[i] < ranks.len(),
        ranks[positions[i - 1] as int] < ranks[positions[i] as int],
        exists|j: int|
            0 <= j < positions.len() && ranks[#[trigger] positions[j] as int] == ranks[k],
{
    assert(has_rank(positions, ranks, ranks[k]));
}

/// The next size is one step larger than the best, and there is none behind the largest nor
/// where nothing pays back.
pub proof fn the_next_size_is_one_step_larger(best: Option<usize>, sizes: usize)
    requires
        best matches Some(best) ==> best < sizes,
    ensures
        following(best, sizes as int) matches Some(next) ==> next < sizes && best == Some(
            (next - 1) as usize,
        ) && next >= 1,
        following(best, sizes as int) is None <==> best is None || best->0 == sizes - 1,
{
}

} // verus!
