//! Sums and counts over sequences, with the facts the grids and the tallies rest on.

use vstd::prelude::*;

verus! {

/// The sum of a sequence.
pub open spec fn sum(s: Seq<nat>) -> nat
    decreases s.len(),
{
    if s.len() == 0 {
        0
    } else {
        sum(s.drop_last()) + s.last()
    }
}

/// Element-wise sum of two sequences of one length.
pub open spec fn sums(a: Seq<nat>, b: Seq<nat>) -> Seq<nat> {
    Seq::new(a.len(), |i: int| a[i] + b[i])
}

/// How many of the first `n` numbers satisfy a condition.
pub open spec fn count_where(n: nat, holds: spec_fn(int) -> bool) -> nat
    decreases n,
{
    if n == 0 {
        0
    } else {
        count_where((n - 1) as nat, holds) + if holds(n - 1) {
            1nat
        } else {
            0nat
        }
    }
}

/// The first `i + 1` elements sum to the first `i` and the next.
pub proof fn sum_of_next(s: Seq<nat>, i: int)
    requires
        0 <= i < s.len(),
    ensures
        sum(s.take(i + 1)) == sum(s.take(i)) + s[i],
{
    assert(s.take(i + 1).drop_last() =~= s.take(i));
}

/// Growing one element grows the sum by as much.
pub proof fn sum_of_update(s: Seq<nat>, i: int, more: nat)
    requires
        0 <= i < s.len(),
    ensures
        sum(s.update(i, s[i] + more)) == sum(s) + more,
    decreases s.len(),
{
    let t = s.update(i, s[i] + more);
    if i == s.len() - 1 {
        assert(t.drop_last() =~= s.drop_last());
    } else {
        sum_of_update(s.drop_last(), i, more);
        assert(t.drop_last() =~= s.drop_last().update(i, s[i] + more));
    }
}

/// The sum of zeros is zero.
pub proof fn sum_of_zeros(s: Seq<nat>)
    requires
        forall|i: int| 0 <= i < s.len() ==> s[i] == 0,
    ensures
        sum(s) == 0,
    decreases s.len(),
{
    if s.len() > 0 {
        sum_of_zeros(s.drop_last());
    }
}

/// Summing commutes with element-wise addition.
pub proof fn sum_of_sums(a: Seq<nat>, b: Seq<nat>)
    requires
        a.len() == b.len(),
    ensures
        sum(sums(a, b)) == sum(a) + sum(b),
    decreases a.len(),
{
    if a.len() > 0 {
        sum_of_sums(a.drop_last(), b.drop_last());
        assert(sums(a, b).drop_last() =~= sums(a.drop_last(), b.drop_last()));
    }
}

/// A sequence that is smaller everywhere has a smaller sum.
pub proof fn sum_is_monotone(a: Seq<nat>, b: Seq<nat>)
    requires
        a.len() == b.len(),
        forall|i: int| 0 <= i < a.len() ==> a[i] <= b[i],
    ensures
        sum(a) <= sum(b),
    decreases a.len(),
{
    if a.len() > 0 {
        sum_is_monotone(a.drop_last(), b.drop_last());
    }
}

/// No element exceeds the sum, and no prefix does either.
pub proof fn sum_bounds(s: Seq<nat>, i: int)
    requires
        0 <= i < s.len(),
    ensures
        s[i] <= sum(s),
        sum(s.take(i)) + s[i] <= sum(s),
    decreases s.len(),
{
    if i < s.len() - 1 {
        sum_bounds(s.drop_last(), i);
        assert(s.drop_last().take(i) =~= s.take(i));
    } else {
        assert(s.take(i) =~= s.drop_last());
    }
}

/// The sum of a concatenation is the sum of the sums.
pub proof fn sum_of_concatenation(a: Seq<nat>, b: Seq<nat>)
    ensures
        sum(a + b) == sum(a) + sum(b),
    decreases b.len(),
{
    if b.len() == 0 {
        assert(a + b =~= a);
    } else {
        sum_of_concatenation(a, b.drop_last());
        assert((a + b).drop_last() =~= a + b.drop_last());
    }
}

/// A count never exceeds the number of candidates.
pub proof fn count_is_bounded(n: nat, holds: spec_fn(int) -> bool)
    ensures
        count_where(n, holds) <= n,
    decreases n,
{
    if n > 0 {
        count_is_bounded((n - 1) as nat, holds);
    }
}

/// A condition that holds less often has a smaller count.
pub proof fn count_is_monotone(n: nat, fewer: spec_fn(int) -> bool, more: spec_fn(int) -> bool)
    requires
        forall|i: int| 0 <= i < n && #[trigger] fewer(i) ==> more(i),
    ensures
        count_where(n, fewer) <= count_where(n, more),
    decreases n,
{
    if n > 0 {
        count_is_monotone((n - 1) as nat, fewer, more);
        assert(fewer(n - 1) ==> more(n - 1));
    }
}

/// What is counted at all holds somewhere.
pub proof fn a_count_has_a_witness(n: nat, holds: spec_fn(int) -> bool)
    requires
        count_where(n, holds) > 0,
    ensures
        exists|i: int| 0 <= i < n && #[trigger] holds(i),
    decreases n,
{
    if !holds(n - 1) {
        a_count_has_a_witness((n - 1) as nat, holds);
    }
}

/// Conditions that agree have the same count.
pub proof fn counts_agree(n: nat, left: spec_fn(int) -> bool, right: spec_fn(int) -> bool)
    requires
        forall|i: int| 0 <= i < n ==> #[trigger] left(i) == right(i),
    ensures
        count_where(n, left) == count_where(n, right),
    decreases n,
{
    if n > 0 {
        counts_agree((n - 1) as nat, left, right);
        assert(left(n - 1) == right(n - 1));
    }
}

/// A count never falls when more numbers are looked at, and grows by no more than their
/// number.
pub proof fn counts_never_fall(fewer: nat, more: nat, holds: spec_fn(int) -> bool)
    requires
        fewer <= more,
    ensures
        count_where(fewer, holds) <= count_where(more, holds) <= count_where(fewer, holds) + (more
            - fewer),
    decreases more,
{
    if fewer < more {
        counts_never_fall(fewer, (more - 1) as nat, holds);
    }
}

/// A condition that holds for one number more has a count higher by one.
pub proof fn count_of_one_more(
    n: nat,
    before: spec_fn(int) -> bool,
    after: spec_fn(int) -> bool,
    at: int,
)
    requires
        0 <= at < n,
        after(at),
        forall|i: int| 0 <= i < n && i != at ==> #[trigger] after(i) == before(i),
    ensures
        count_where(n, after) == count_where(n, before) + if before(at) {
            0nat
        } else {
            1nat
        },
    decreases n,
{
    if at == n - 1 {
        counts_agree((n - 1) as nat, after, before);
    } else {
        count_of_one_more((n - 1) as nat, before, after, at);
        assert(after(n - 1) == before(n - 1));
    }
}

/// A count of nothing is zero, and of everything the number of candidates.
pub proof fn counts_at_the_extremes(n: nat, holds: spec_fn(int) -> bool)
    ensures
        (forall|i: int| 0 <= i < n ==> !#[trigger] holds(i)) ==> count_where(n, holds) == 0,
        (forall|i: int| 0 <= i < n ==> #[trigger] holds(i)) ==> count_where(n, holds) == n,
    decreases n,
{
    if n > 0 {
        counts_at_the_extremes((n - 1) as nat, holds);
    }
}

} // verus!
