//! Which local days and months a paired timeline touches.

use vstd::prelude::*;
use vstd::set_lib::{lemma_int_range, lemma_len_subset};

use crate::storage::pair;
use crate::storage::pair::PairedStep;
use crate::timeutil;
use crate::timeutil::Zone;

verus! {

/// A day recorded for at least this long counts as a whole one.
pub const FULL_DAY_SECONDS: u64 = 72_000;

/// The local day a step falls on.
pub open spec fn day_of(step: PairedStep, zone: Seq<char>) -> int {
    timeutil::local_time_at(zone, step.start_ts as int).parts.day as int
}

/// The local days that steps touch.
pub open spec fn days_touched(steps: Seq<PairedStep>, zone: Seq<char>) -> Set<int> {
    Set::new(|day: int| touches(steps, zone, day))
}

/// Whether any step falls on a day.
pub open spec fn touches(steps: Seq<PairedStep>, zone: Seq<char>, day: int) -> bool {
    exists|i: int| 0 <= i < steps.len() && day_of(#[trigger] steps[i], zone) == day
}

/// Seconds of the steps that fall on a day.
pub open spec fn seconds_on(steps: Seq<PairedStep>, zone: Seq<char>, day: int) -> int
    decreases steps.len(),
{
    if steps.len() == 0 {
        0
    } else {
        seconds_on(steps.drop_last(), zone, day) + if day_of(steps.last(), zone) == day {
            steps.last().seconds as int
        } else {
            0
        }
    }
}

/// The local days that steps cover for most of their hours.
pub open spec fn days_filled(steps: Seq<PairedStep>, zone: Seq<char>) -> Set<int> {
    Set::new(
        |day: int|
            touches(steps, zone, day) && seconds_on(steps, zone, day) >= FULL_DAY_SECONDS,
    )
}

/// A history touches only so many days.
proof fn touched_days_are_finite(steps: Seq<PairedStep>, zone: Seq<char>)
    ensures
        days_touched(steps, zone).finite(),
    decreases steps.len(),
{
    if steps.len() == 0 {
        assert(days_touched(steps, zone) =~= Set::empty());
    } else {
        let before = steps.drop_last();
        touched_days_are_finite(before, zone);
        let more = days_touched(before, zone).insert(day_of(steps.last(), zone));
        assert forall|day: int| #[trigger] more.contains(day) == touches(steps, zone, day) by {
            if touches(before, zone, day) {
                let i = choose|i: int|
                    0 <= i < before.len() && day_of(#[trigger] before[i], zone) == day;
                assert(day_of(steps[i], zone) == day);
            }
            if touches(steps, zone, day) && day_of(steps.last(), zone) != day {
                let i = choose|i: int|
                    0 <= i < steps.len() && day_of(#[trigger] steps[i], zone) == day;
                assert(day_of(before[i], zone) == day);
            }
        }
        assert(days_touched(steps, zone) =~= more);
    }
}

/// The days that were recorded right through are among the days that were touched.
pub proof fn filled_days_are_touched(steps: Seq<PairedStep>, zone: Seq<char>)
    ensures
        days_filled(steps, zone).subset_of(days_touched(steps, zone)),
        days_filled(steps, zone).len() <= days_touched(steps, zone).len(),
{
    touched_days_are_finite(steps, zone);
    vstd::set_lib::lemma_len_subset(days_filled(steps, zone), days_touched(steps, zone));
}

/// No day holds more seconds than all days together.
proof fn a_day_is_part_of_the_whole(steps: Seq<PairedStep>, zone: Seq<char>, day: int)
    ensures
        0 <= seconds_on(steps, zone, day) <= pair::step_seconds(steps),
    decreases steps.len(),
{
    if steps.len() > 0 {
        a_day_is_part_of_the_whole(steps.drop_last(), zone, day);
    }
}

/// More steps never hold fewer seconds.
proof fn step_seconds_grow(steps: Seq<PairedStep>, count: int)
    requires
        0 <= count <= steps.len(),
    ensures
        0 <= pair::step_seconds(steps.take(count)) <= pair::step_seconds(steps),
    decreases steps.len() - count,
{
    if count == steps.len() {
        assert(steps.take(count) =~= steps);
        a_day_is_part_of_the_whole(steps, Seq::empty(), 0);
    } else {
        step_seconds_grow(steps, count + 1);
        assert(steps.take(count + 1).drop_last() =~= steps.take(count));
        a_day_is_part_of_the_whole(steps.take(count), Seq::empty(), 0);
    }
}

/// The days of a list, as numbers.
pub open spec fn numbers(days: Seq<i32>) -> Set<int> {
    Set::new(|day: int| exists|i: int| 0 <= i < days.len() && #[trigger] days[i] == day)
}

/// A list of days without duplicates has as many entries as it holds days.
proof fn distinct_days(days: Seq<i32>)
    requires
        days.no_duplicates(),
        forall|i: int|
            0 <= i < days.len() ==> timeutil::FIRST_DAY - 1 <= #[trigger] days[i]
                <= timeutil::LAST_DAY + 1,
    ensures
        numbers(days).finite(),
        numbers(days).len() == days.len(),
        days.len() <= u32::MAX,
    decreases days.len(),
{
    if days.len() == 0 {
        assert(numbers(days) =~= Set::<int>::empty());
    } else {
        let rest = days.drop_last();
        assert forall|i: int| 0 <= i < rest.len() implies timeutil::FIRST_DAY - 1
            <= #[trigger] rest[i] <= timeutil::LAST_DAY + 1 by {
            assert(rest[i] == days[i]);
        }
        distinct_days(rest);
        let last = days.last() as int;
        assert(!numbers(rest).contains(last)) by {
            if numbers(rest).contains(last) {
                let i = choose|i: int| 0 <= i < rest.len() && #[trigger] rest[i] == last;
                assert(days[i] == days[days.len() - 1]);
            }
        }
        assert(numbers(days) =~= numbers(rest).insert(last)) by {
            assert forall|day: int| numbers(days).contains(day) == numbers(rest).insert(
                last,
            ).contains(day) by {
                if numbers(days).contains(day) {
                    let i = choose|i: int| 0 <= i < days.len() && #[trigger] days[i] == day;
                    if i < rest.len() {
                        assert(rest[i] == day);
                    }
                }
                if numbers(rest).contains(day) {
                    let i = choose|i: int| 0 <= i < rest.len() && #[trigger] rest[i] == day;
                    assert(days[i] == day);
                }
                assert(days[days.len() - 1] == last);
            }
        }
    }
    let reach = vstd::set_lib::set_int_range(timeutil::FIRST_DAY - 1, timeutil::LAST_DAY + 2);
    lemma_int_range(timeutil::FIRST_DAY - 1, timeutil::LAST_DAY + 2);
    assert(numbers(days).subset_of(reach)) by {
        assert forall|day: int| numbers(days).contains(day) implies reach.contains(day) by {
            let i = choose|i: int| 0 <= i < days.len() && #[trigger] days[i] == day;
            assert(timeutil::FIRST_DAY - 1 <= days[i] <= timeutil::LAST_DAY + 1);
        }
    }
    lemma_len_subset(numbers(days), reach);
}

/// Where a day stands in a list.
fn position_of(days: &Vec<i32>, day: i32) -> (position: Option<usize>)
    ensures
        match position {
            Some(i) => i < days@.len() && days@[i as int] == day,
            None => !days@.contains(day),
        },
{
    // Steps come in order of time, so the day wanted is most often the last one.
    let mut left: usize = days.len();
    while left > 0
        invariant
            left <= days@.len(),
            forall|k: int| left <= k < days@.len() ==> days@[k] != day,
        decreases left,
    {
        if days[left - 1] == day {
            return Some(left - 1);
        }
        left = left - 1;
    }
    None
}

/// Whether a list of days with their seconds sums up steps.
pub open spec fn sums_up(
    days: Seq<i32>,
    seconds: Seq<u64>,
    steps: Seq<PairedStep>,
    zone: Seq<char>,
) -> bool {
    &&& days.no_duplicates()
    &&& days.len() == seconds.len()
    &&& forall|day: int| #[trigger] touches(steps, zone, day) <==> numbers(days).contains(day)
    &&& forall|i: int|
        0 <= i < days.len() ==> #[trigger] seconds[i] == seconds_on(steps, zone, days[i] as int)
    &&& forall|i: int|
        0 <= i < days.len() ==> timeutil::FIRST_DAY - 1 <= #[trigger] days[i]
            <= timeutil::LAST_DAY + 1
}

/// The days that steps touch, each with the seconds of the steps on it.
fn seconds_per_day(steps: &[PairedStep], tz: &Zone) -> (sums: (Vec<i32>, Vec<u64>))
    requires
        pair::step_seconds(steps@) <= u64::MAX,
    ensures
        sums_up(sums.0@, sums.1@, steps@, tz@),
{
    let mut days: Vec<i32> = Vec::new();
    let mut seconds: Vec<u64> = Vec::new();
    let mut i: usize = 0;
    while i < steps.len()
        invariant
            i <= steps@.len(),
            pair::step_seconds(steps@) <= u64::MAX,
            sums_up(days@, seconds@, steps@.take(i as int), tz@),
        decreases steps@.len() - i,
    {
        let ghost (days_before, seconds_before) = (days@, seconds@);
        let ghost before = steps@.take(i as int);
        let ghost now = steps@.take(i + 1);
        let day: i32 = timeutil::local_day(steps[i].start_ts, tz);
        proof {
            assert(now.drop_last() =~= before);
            step_seconds_grow(steps@, i + 1);
            a_day_is_part_of_the_whole(now, tz@, day as int);
        }
        match position_of(&days, day) {
            Some(at) => {
                assert(seconds@[at as int] == seconds_on(before, tz@, day as int));
                let total: u64 = seconds[at] + steps[i].seconds;
                seconds.set(at, total);
            },
            None => {
                proof {
                    nothing_on_untouched_days(before, tz@, day as int, days_before);
                }
                days.push(day);
                seconds.push(steps[i].seconds);
            },
        }
        proof {
            one_more_step(
                days_before,
                seconds_before,
                days@,
                seconds@,
                before,
                now,
                tz@,
                day,
            );
        }
        i = i + 1;
    }
    proof {
        assert(steps@.take(i as int) =~= steps@);
    }
    (days, seconds)
}

/// A day that no step falls on has no seconds.
proof fn nothing_on_untouched_days(
    steps: Seq<PairedStep>,
    zone: Seq<char>,
    day: int,
    days: Seq<i32>,
)
    requires
        !days.contains(day as i32),
        i32::MIN <= day <= i32::MAX,
        forall|d: int| #[trigger] touches(steps, zone, d) <==> numbers(days).contains(d),
    ensures
        seconds_on(steps, zone, day) == 0,
{
    assert(!touches(steps, zone, day)) by {
        if numbers(days).contains(day) {
            let i = choose|i: int| 0 <= i < days.len() && #[trigger] days[i] == day;
            assert(days.contains(days[i]));
        }
    }
    untouched(steps, zone, day);
}

proof fn untouched(steps: Seq<PairedStep>, zone: Seq<char>, day: int)
    requires
        !touches(steps, zone, day),
    ensures
        seconds_on(steps, zone, day) == 0,
    decreases steps.len(),
{
    if steps.len() > 0 {
        let rest = steps.drop_last();
        if touches(rest, zone, day) {
            let i = choose|i: int| 0 <= i < rest.len() && day_of(#[trigger] rest[i], zone) == day;
            assert(day_of(steps[i], zone) == day);
        }
        untouched(rest, zone, day);
        assert(steps[steps.len() - 1] == steps.last());
    }
}

/// The sums after one more step.
proof fn one_more_step(
    days_before: Seq<i32>,
    seconds_before: Seq<u64>,
    days: Seq<i32>,
    seconds: Seq<u64>,
    before: Seq<PairedStep>,
    now: Seq<PairedStep>,
    zone: Seq<char>,
    day: i32,
)
    requires
        sums_up(days_before, seconds_before, before, zone),
        now.len() > 0,
        now.drop_last() == before,
        day_of(now.last(), zone) == day,
        timeutil::FIRST_DAY - 1 <= day <= timeutil::LAST_DAY + 1,
        ({
            ||| days == days_before && exists|at: int|
                0 <= at < days.len() && days[at] == day && #[trigger] seconds_before.update(
                    at,
                    seconds_on(now, zone, day as int) as u64,
                ) == seconds && seconds_on(now, zone, day as int) <= u64::MAX
            ||| !days_before.contains(day) && days == days_before.push(day) && seconds
                == seconds_before.push(now.last().seconds) && seconds_on(before, zone, day as int)
                == 0
        }),
    ensures
        sums_up(days, seconds, now, zone),
{
    assert forall|d: int| #[trigger] touches(now, zone, d) == (touches(before, zone, d) || d
        == day) by {
        if touches(before, zone, d) {
            let i = choose|i: int| 0 <= i < before.len() && day_of(#[trigger] before[i], zone) == d;
            assert(day_of(now[i], zone) == d);
        }
        if d == day {
            assert(day_of(now[now.len() - 1], zone) == d);
        }
        if touches(now, zone, d) && d != day {
            let i = choose|i: int| 0 <= i < now.len() && day_of(#[trigger] now[i], zone) == d;
            assert(i < now.len() - 1);
            assert(day_of(before[i], zone) == d);
        }
    }
    assert forall|d: int| #[trigger] touches(now, zone, d) <==> numbers(days).contains(d) by {
        assert(touches(before, zone, d) <==> numbers(days_before).contains(d));
        if numbers(days_before).contains(d) {
            let i = choose|i: int| 0 <= i < days_before.len() && #[trigger] days_before[i] == d;
            assert(days[i] == d);
        }
        if d == day {
            if days_before.contains(day) {
                let i = choose|i: int| 0 <= i < days_before.len() && days_before[i] == day;
                assert(days[i] == d);
            } else {
                assert(days[days.len() - 1] == d || days == days_before);
            }
        }
        if numbers(days).contains(d) && d != day {
            let i = choose|i: int| 0 <= i < days.len() && #[trigger] days[i] == d;
            assert(days_before[i] == d);
        }
    }
    assert forall|i: int| 0 <= i < days.len() implies #[trigger] seconds[i] == seconds_on(
        now,
        zone,
        days[i] as int,
    ) by {
        if i < days_before.len() {
            assert(days[i] == days_before[i]);
            assert(seconds_before[i] == seconds_on(before, zone, days_before[i] as int));
        }
    }
    assert(days.no_duplicates()) by {
        if days != days_before {
            assert forall|i: int, j: int|
                0 <= i < days.len() && 0 <= j < days.len() && i != j implies days[i] != days[j] by {
                if i < days_before.len() && j < days_before.len() {
                    assert(days_before[i] != days_before[j]);
                } else if i < days_before.len() {
                    assert(days_before.contains(days_before[i]));
                } else {
                    assert(days_before.contains(days_before[j]));
                }
            }
        }
    }
}

/// Local days a paired timeline touched, and how many of those were whole days.
pub fn day_counts(steps: &[PairedStep], tz: &Zone) -> (counts: (u32, u32))
    requires
        pair::step_seconds(steps@) <= u64::MAX,
    ensures
        days_touched(steps@, tz@).finite(),
        counts.0 == days_touched(steps@, tz@).len(),
        days_filled(steps@, tz@).finite(),
        counts.1 == days_filled(steps@, tz@).len(),
{
    let (days, seconds) = seconds_per_day(steps, tz);
    let mut full: Vec<i32> = Vec::new();
    let mut i: usize = 0;
    while i < days.len()
        invariant
            i <= days@.len(),
            sums_up(days@, seconds@, steps@, tz@),
            full@.no_duplicates(),
            forall|k: int| 0 <= k < full@.len() ==> days@.take(i as int).contains(#[trigger] full@[k]),
            forall|day: int|
                #![trigger numbers(full@).contains(day)]
                numbers(full@).contains(day) <==> (numbers(days@.take(i as int)).contains(day)
                    && seconds_on(steps@, tz@, day) >= FULL_DAY_SECONDS),
        decreases days@.len() - i,
    {
        let ghost before = full@;
        assert(seconds@[i as int] == seconds_on(steps@, tz@, days@[i as int] as int));
        if seconds[i] >= FULL_DAY_SECONDS {
            full.push(days[i]);
        }
        proof {
            one_more_day(
                before,
                full@,
                days@,
                i as int,
                |day: int| seconds_on(steps@, tz@, day) >= FULL_DAY_SECONDS,
            );
        }
        i = i + 1;
    }
    proof {
        assert(days@.take(i as int) =~= days@);
        distinct_days(days@);
        assert forall|k: int| 0 <= k < full@.len() implies timeutil::FIRST_DAY - 1
            <= #[trigger] full@[k] <= timeutil::LAST_DAY + 1 by {
            assert(days@.contains(full@[k]));
        }
        distinct_days(full@);
        assert(days_touched(steps@, tz@) =~= numbers(days@));
        assert(days_filled(steps@, tz@) =~= numbers(full@));
    }
    (days.len() as u32, full.len() as u32)
}

/// The days kept after one more was looked at.
proof fn one_more_day(
    before: Seq<i32>,
    full: Seq<i32>,
    days: Seq<i32>,
    i: int,
    kept: spec_fn(int) -> bool,
)
    requires
        0 <= i < days.len(),
        days.no_duplicates(),
        before.no_duplicates(),
        forall|k: int| 0 <= k < before.len() ==> days.take(i).contains(#[trigger] before[k]),
        forall|day: int|
            #![trigger numbers(before).contains(day)]
            numbers(before).contains(day) <==> (numbers(days.take(i)).contains(day) && kept(day)),
        full == if kept(days[i] as int) {
            before.push(days[i])
        } else {
            before
        },
    ensures
        full.no_duplicates(),
        forall|k: int| 0 <= k < full.len() ==> days.take(i + 1).contains(#[trigger] full[k]),
        forall|day: int|
            #![trigger numbers(full).contains(day)]
            numbers(full).contains(day) <==> (numbers(days.take(i + 1)).contains(day) && kept(day)),
{
    let (earlier, now) = (days.take(i), days.take(i + 1));
    let day = days[i];
    assert(!earlier.contains(day)) by {
        if earlier.contains(day) {
            let k = choose|k: int| 0 <= k < earlier.len() && earlier[k] == day;
            assert(days[k] == days[i]);
        }
    }
    assert forall|d: int| #[trigger] numbers(now).contains(d) == (numbers(earlier).contains(d) || d
        == day) by {
        if numbers(now).contains(d) {
            let k = choose|k: int| 0 <= k < now.len() && #[trigger] now[k] == d;
            if k < i {
                assert(earlier[k] == d);
            }
        }
        if numbers(earlier).contains(d) {
            let k = choose|k: int| 0 <= k < earlier.len() && #[trigger] earlier[k] == d;
            assert(now[k] == d);
        }
        assert(now[i] == day);
    }
    assert forall|k: int| 0 <= k < full.len() implies now.contains(#[trigger] full[k]) by {
        if k < before.len() {
            assert(full[k] == before[k]);
            let j = choose|j: int| 0 <= j < earlier.len() && earlier[j] == before[k];
            assert(now[j] == full[k]);
        } else {
            assert(now[i] == day);
        }
    }
    assert(full.no_duplicates()) by {
        assert forall|a: int, b: int|
            0 <= a < full.len() && 0 <= b < full.len() && a != b implies full[a] != full[b] by {
            if a < before.len() && b < before.len() {
                assert(before[a] != before[b]);
            } else if a < before.len() {
                assert(earlier.contains(before[a]));
            } else {
                assert(earlier.contains(before[b]));
            }
        }
    }
    assert forall|d: int|
        #![trigger numbers(full).contains(d)]
        numbers(full).contains(d) <==> (numbers(now).contains(d) && kept(d)) by {
        assert(numbers(before).contains(d) <==> (numbers(earlier).contains(d) && kept(d)));
        assert(numbers(now).contains(d) == (numbers(earlier).contains(d) || d == day));
        if numbers(full).contains(d) {
            let k = choose|k: int| 0 <= k < full.len() && #[trigger] full[k] == d;
            if k < before.len() {
                assert(before[k] == d);
            }
        }
        if numbers(before).contains(d) {
            let k = choose|k: int| 0 <= k < before.len() && #[trigger] before[k] == d;
            assert(full[k] == d);
        }
        if d == day && kept(d) {
            assert(full[before.len() as int] == d);
        }
    }
}

/// Whether any step falls into a month, counted from zero.
pub open spec fn in_month(steps: Seq<PairedStep>, zone: Seq<char>, month: int) -> bool {
    exists|i: int|
        0 <= i < steps.len() && timeutil::local_time_at(
            zone,
            (#[trigger] steps[i]).start_ts as int,
        ).parts.month == month + 1
}

/// The months a paired timeline touches, counted from zero, in calendar order.
pub fn present_months(steps: &[PairedStep], tz: &Zone) -> (months: Vec<usize>)
    ensures
        forall|i: int, j: int| 0 <= i < j < months@.len() ==> months@[i] < months@[j],
        forall|month: usize| months@.contains(month) <==> month < 12 && in_month(
            steps@,
            tz@,
            month as int,
        ),
{
    let mut seen: Vec<bool> = Vec::new();
    let mut month: usize = 0;
    while month < 12
        invariant
            month <= 12,
            seen@.len() == month,
            forall|k: int| 0 <= k < month ==> !(#[trigger] seen@[k]),
        decreases 12 - month,
    {
        seen.push(false);
        month = month + 1;
    }
    let mut i: usize = 0;
    while i < steps.len()
        invariant
            i <= steps@.len(),
            seen@.len() == 12,
            forall|k: int|
                0 <= k < 12 ==> #[trigger] seen@[k] == in_month(steps@.take(i as int), tz@, k),
        decreases steps@.len() - i,
    {
        let ghost before = seen@;
        let at: u8 = timeutil::local_parts(steps[i].start_ts, tz).month;
        seen.set((at - 1) as usize, true);
        proof {
            let (earlier, now) = (steps@.take(i as int), steps@.take(i + 1));
            assert forall|k: int| 0 <= k < 12 implies #[trigger] seen@[k] == in_month(
                now,
                tz@,
                k,
            ) by {
                assert(before[k] == in_month(earlier, tz@, k));
                if in_month(earlier, tz@, k) {
                    let j = choose|j: int|
                        0 <= j < earlier.len() && timeutil::local_time_at(
                            tz@,
                            (#[trigger] earlier[j]).start_ts as int,
                        ).parts.month == k + 1;
                    assert(now[j] == earlier[j]);
                }
                if in_month(now, tz@, k) {
                    let j = choose|j: int|
                        0 <= j < now.len() && timeutil::local_time_at(
                            tz@,
                            (#[trigger] now[j]).start_ts as int,
                        ).parts.month == k + 1;
                    if j < i {
                        assert(earlier[j] == now[j]);
                    }
                }
                assert(now[i as int] == steps@[i as int]);
            }
        }
        i = i + 1;
    }
    proof {
        assert(steps@.take(i as int) =~= steps@);
    }
    let mut months: Vec<usize> = Vec::new();
    let mut month: usize = 0;
    while month < 12
        invariant
            month <= 12,
            seen@.len() == 12,
            forall|k: int| 0 <= k < 12 ==> #[trigger] seen@[k] == in_month(steps@, tz@, k),
            forall|i: int| 0 <= i < months@.len() ==> #[trigger] months@[i] < month,
            forall|i: int, j: int| 0 <= i < j < months@.len() ==> months@[i] < months@[j],
            forall|m: usize| months@.contains(m) <==> m < month && in_month(steps@, tz@, m as int),
        decreases 12 - month,
    {
        let ghost before = months@;
        assert(seen@[month as int] == in_month(steps@, tz@, month as int));
        if seen[month] {
            months.push(month);
        }
        proof {
            assert forall|m: usize| months@.contains(m) <==> m < month + 1 && in_month(
                steps@,
                tz@,
                m as int,
            ) by {
                assert(before.contains(m) <==> m < month && in_month(steps@, tz@, m as int));
                if before.contains(m) {
                    let k = choose|k: int| 0 <= k < before.len() && before[k] == m;
                    assert(months@[k] == m);
                }
                if months@.contains(m) {
                    let k = choose|k: int| 0 <= k < months@.len() && months@[k] == m;
                    if k < before.len() {
                        assert(before[k] == m);
                    }
                }
                if m == month && seen@[month as int] {
                    assert(months@[before.len() as int] == m);
                }
            }
        }
        month = month + 1;
    }
    months
}

/// A day counts as touched where a step starts on it, and as whole where the steps that start
/// on it last for twenty hours or more, all together.
pub proof fn whole_days_hold_twenty_hours(steps: Seq<PairedStep>, zone: Seq<char>, day: int)
    ensures
        days_touched(steps, zone).contains(day) <==> exists|i: int|
            0 <= i < steps.len() && timeutil::local_time_at(
                zone,
                (#[trigger] steps[i]).start_ts as int,
            ).parts.day == day,
        days_filled(steps, zone).contains(day) <==> seconds_on(steps, zone, day) >= 20 * 3_600,
    decreases steps.len(),
{
    if touches(steps, zone, day) {
        let i = choose|i: int| 0 <= i < steps.len() && day_of(#[trigger] steps[i], zone) == day;
        assert(timeutil::local_time_at(zone, steps[i].start_ts as int).parts.day == day);
    }
    if exists|i: int|
        0 <= i < steps.len() && timeutil::local_time_at(
            zone,
            (#[trigger] steps[i]).start_ts as int,
        ).parts.day == day {
        let i = choose|i: int|
            0 <= i < steps.len() && timeutil::local_time_at(
                zone,
                (#[trigger] steps[i]).start_ts as int,
            ).parts.day == day;
        assert(day_of(steps[i], zone) == day);
    }
    if !touches(steps, zone, day) {
        untouched_days_hold_nothing(steps, zone, day);
    }
}

proof fn untouched_days_hold_nothing(steps: Seq<PairedStep>, zone: Seq<char>, day: int)
    requires
        !touches(steps, zone, day),
    ensures
        seconds_on(steps, zone, day) == 0,
    decreases steps.len(),
{
    if steps.len() > 0 {
        let rest = steps.drop_last();
        if touches(rest, zone, day) {
            let i = choose|i: int| 0 <= i < rest.len() && day_of(#[trigger] rest[i], zone) == day;
            assert(day_of(steps[i], zone) == day);
        }
        assert(day_of(steps[steps.len() - 1], zone) != day);
        untouched_days_hold_nothing(rest, zone, day);
    }
}

/// The time on a day is that of the steps that start on it: each adds what it lasts to its
/// own day and nothing to any other.
pub proof fn a_step_counts_for_its_own_day(
    steps: Seq<PairedStep>,
    step: PairedStep,
    zone: Seq<char>,
    day: int,
)
    ensures
        seconds_on(steps.push(step), zone, day) == seconds_on(steps, zone, day) + if
        timeutil::local_time_at(zone, step.start_ts as int).parts.day == day {
            step.seconds as int
        } else {
            0
        },
        seconds_on(Seq::<PairedStep>::empty(), zone, day) == 0,
{
    assert(steps.push(step).drop_last() =~= steps);
}

/// A step lies in the month that the calendar on the wall shows where it starts, and a month
/// is present exactly when a step lies in it.
pub proof fn a_step_lies_in_the_month_it_starts_in(
    steps: Seq<PairedStep>,
    step: PairedStep,
    zone: Seq<char>,
    month: int,
)
    ensures
        in_month(steps.push(step), zone, month) <==> in_month(steps, zone, month)
            || timeutil::local_time_at(zone, step.start_ts as int).parts.month == month + 1,
        !in_month(Seq::<PairedStep>::empty(), zone, month),
{
    let more = steps.push(step);
    assert(more[steps.len() as int] == step);
    if in_month(steps, zone, month) {
        let i = choose|i: int|
            0 <= i < steps.len() && timeutil::local_time_at(
                zone,
                (#[trigger] steps[i]).start_ts as int,
            ).parts.month == month + 1;
        assert(more[i] == steps[i]);
    }
    if in_month(more, zone, month) {
        let i = choose|i: int|
            0 <= i < more.len() && timeutil::local_time_at(
                zone,
                (#[trigger] more[i]).start_ts as int,
            ).parts.month == month + 1;
        if i < steps.len() {
            assert(steps[i] == more[i]);
        }
    }
}

} // verus!
