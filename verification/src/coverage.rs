//! What the recorder actually covered, and where the holes are.
//!
//! A photovoltaic history is rarely a tidy block of years: Home Assistant gets restarted,
//! SD cards fill up, the recorder is purged, an entity is renamed. None of that biases a
//! single column's probabilities - those are normalised by the time actually observed -
//! but it does decide how much weight the numbers deserve, and a reader cannot judge that
//! without being told what is missing.

use vstd::prelude::*;

use crate::model;
use crate::model::{Grouping, Sample, Share};
use crate::order;
use crate::sums;
use crate::timeutil;
use crate::timeutil::{CalendarDate, DayNumber, Zone};

verus! {

/// A stretch of time between two observations with nothing in it.
#[derive(Debug, Clone, Copy, PartialEq, Eq, Structural)]
pub struct Gap {
    pub start_ts: i64,
    pub end_ts: i64,
}

impl Gap {
    /// How long the gap is, never negative.
    pub open spec fn length(self) -> int {
        model::later(self.end_ts - self.start_ts, 0)
    }

    pub fn seconds(&self) -> (seconds: i64)
        requires
            self.end_ts - self.start_ts <= i64::MAX,
        ensures
            seconds == self.length(),
    {
        if self.end_ts <= self.start_ts {
            0
        } else {
            self.end_ts - self.start_ts
        }
    }
}

// ---------------------------------------------------------------------------------------
// Finding the holes
// ---------------------------------------------------------------------------------------

/// Whether a sample covers any time.
pub open spec fn covers_time<W>(sample: Sample<W>) -> bool {
    sample.start_ts < sample.end_ts
}

/// Whether some sample with a duration ends at an instant.
pub open spec fn ends_at<W>(samples: Seq<Sample<W>>, ts: int) -> bool {
    exists|i: int|
        0 <= i < samples.len() && covers_time(#[trigger] samples[i]) && samples[i].end_ts == ts
}

/// Whether some sample with a duration starts at an instant.
pub open spec fn starts_at<W>(samples: Seq<Sample<W>>, ts: int) -> bool {
    exists|i: int|
        0 <= i < samples.len() && covers_time(#[trigger] samples[i]) && samples[i].start_ts == ts
}

/// Whether no sample covers any of `[from, to)`.
pub open spec fn uncovered<W>(samples: Seq<Sample<W>>, from: int, to: int) -> bool {
    forall|i: int|
        0 <= i < samples.len() && covers_time(#[trigger] samples[i]) ==> samples[i].end_ts <= from
            || to <= samples[i].start_ts
}

/// Whether a stretch is a hole of at least `threshold` seconds: nothing covers it, one
/// observation ends where it begins, and another begins where it ends.
pub open spec fn is_gap<W>(samples: Seq<Sample<W>>, threshold: int, gap: Gap) -> bool {
    &&& gap.start_ts < gap.end_ts
    &&& gap.end_ts - gap.start_ts >= threshold
    &&& ends_at(samples, gap.start_ts as int)
    &&& starts_at(samples, gap.end_ts as int)
    &&& uncovered(samples, gap.start_ts as int, gap.end_ts as int)
}

/// The same of pairs of start and end.
spec fn is_pair_gap(pairs: Seq<(i64, i64)>, threshold: int, gap: Gap) -> bool {
    &&& gap.start_ts < gap.end_ts
    &&& gap.end_ts - gap.start_ts >= threshold
    &&& exists|i: int| 0 <= i < pairs.len() && (#[trigger] pairs[i]).1 == gap.start_ts
    &&& exists|i: int| 0 <= i < pairs.len() && (#[trigger] pairs[i]).0 == gap.end_ts
    &&& forall|i: int|
        0 <= i < pairs.len() ==> (#[trigger] pairs[i]).1 <= gap.start_ts || gap.end_ts
            <= pairs[i].0
}

/// Whether a list of gaps is in chronological order, without overlap.
pub open spec fn chronological(gaps: Seq<Gap>) -> bool {
    forall|i: int, j: int|
        0 <= i < j < gaps.len() ==> (#[trigger] gaps[i]).end_ts <= (#[trigger] gaps[j]).start_ts
}

/// Whether pairs of start and end are those of the samples with a duration.
spec fn are_spans_of<W>(pairs: Seq<(i64, i64)>, samples: Seq<Sample<W>>) -> bool {
    &&& forall|j: int|
        0 <= j < pairs.len() ==> (#[trigger] pairs[j]).0 < pairs[j].1 && exists|i: int|
            0 <= i < samples.len() && (#[trigger] samples[i]).start_ts == pairs[j].0
                && samples[i].end_ts == pairs[j].1
    &&& forall|i: int|
        0 <= i < samples.len() && covers_time(#[trigger] samples[i]) ==> pairs.contains(
            (samples[i].start_ts, samples[i].end_ts),
        )
}

/// Find every hole longer than `threshold_seconds` between the first and the last
/// observation.
///
/// Samples are merged first, so overlapping or touching readings do not invent gaps, and
/// the time before the first and after the last reading is not a gap - the recorder was
/// simply not asked about it.
pub fn gaps<W>(samples: &[Sample<W>], threshold_seconds: i64) -> (gaps: Vec<Gap>)
    ensures
        forall|gap: Gap| #[trigger]
            gaps@.contains(gap) <==> is_gap(
                samples@,
                model::later(threshold_seconds as int, 1),
                gap,
            ),
        chronological(gaps@),
{
    let threshold: i64 = if threshold_seconds >= 1 {
        threshold_seconds
    } else {
        1
    };
    let mut spans: Vec<(i64, i64)> = spans_of(samples);
    let ghost unsorted = spans@;
    order::sort_pairs(&mut spans);
    proof {
        spans_in_any_order(unsorted, spans@, samples@);
    }
    let found: Vec<Gap> = pair_gaps(spans.as_slice(), threshold);
    proof {
        assert forall|gap: Gap| #[trigger] found@.contains(gap) <==> is_gap(
            samples@,
            threshold as int,
            gap,
        ) by {
            gap_of_spans(spans@, samples@, threshold as int, gap);
        }
    }
    found
}

/// The start and end of every sample with a duration.
fn spans_of<W>(samples: &[Sample<W>]) -> (spans: Vec<(i64, i64)>)
    ensures
        are_spans_of(spans@, samples@),
{
    let mut spans: Vec<(i64, i64)> = Vec::new();
    let mut i: usize = 0;
    while i < samples.len()
        invariant
            i <= samples@.len(),
            are_spans_of(spans@, samples@.take(i as int)),
        decreases samples@.len() - i,
    {
        let ghost before = spans@;
        let (start, end) = (samples[i].start_ts, samples[i].end_ts);
        if start < end {
            spans.push((start, end));
        }
        proof {
            let seen = samples@.take(i as int);
            let now = samples@.take(i + 1);
            assert(now[i as int] == samples@[i as int]);
            assert forall|j: int| 0 <= j < spans@.len() implies (#[trigger] spans@[j]).0
                < spans@[j].1 && exists|k: int|
                0 <= k < now.len() && (#[trigger] now[k]).start_ts == spans@[j].0 && now[k].end_ts
                    == spans@[j].1 by {
                if j < before.len() {
                    assert(spans@[j] == before[j]);
                    let k = choose|k: int|
                        0 <= k < seen.len() && (#[trigger] seen[k]).start_ts == before[j].0
                            && seen[k].end_ts == before[j].1;
                    assert(now[k] == seen[k]);
                } else {
                    assert(now[i as int].start_ts == spans@[j].0);
                }
            }
            assert forall|k: int|
                0 <= k < now.len() && covers_time(#[trigger] now[k]) implies spans@.contains(
                (now[k].start_ts, now[k].end_ts),
            ) by {
                if k < i {
                    assert(seen[k] == now[k]);
                    assert(covers_time(seen[k]));
                    let j = choose|j: int|
                        0 <= j < before.len() && before[j] == (seen[k].start_ts, seen[k].end_ts);
                    assert(spans@[j] == before[j]);
                } else {
                    assert(spans@[before.len() as int] == (start, end));
                }
            }
        }
        i = i + 1;
    }
    proof {
        assert(samples@.take(i as int) =~= samples@);
    }
    spans
}

proof fn spans_in_any_order<W>(
    pairs: Seq<(i64, i64)>,
    sorted: Seq<(i64, i64)>,
    samples: Seq<Sample<W>>,
)
    requires
        are_spans_of(pairs, samples),
        pairs.to_multiset() == sorted.to_multiset(),
    ensures
        are_spans_of(sorted, samples),
{
    assert forall|j: int| 0 <= j < sorted.len() implies (#[trigger] sorted[j]).0 < sorted[j].1
        && exists|i: int|
        0 <= i < samples.len() && (#[trigger] samples[i]).start_ts == sorted[j].0
            && samples[i].end_ts == sorted[j].1 by {
        assert(sorted.contains(sorted[j]));
        order::same_members(pairs, sorted, sorted[j]);
        let k = choose|k: int| 0 <= k < pairs.len() && pairs[k] == sorted[j];
        assert(pairs[k].0 < pairs[k].1);
    }
    assert forall|i: int|
        0 <= i < samples.len() && covers_time(#[trigger] samples[i]) implies sorted.contains(
        (samples[i].start_ts, samples[i].end_ts),
    ) by {
        order::same_members(pairs, sorted, (samples[i].start_ts, samples[i].end_ts));
    }
}

/// A hole between spans is a hole between samples.
proof fn gap_of_spans<W>(
    pairs: Seq<(i64, i64)>,
    samples: Seq<Sample<W>>,
    threshold: int,
    gap: Gap,
)
    requires
        are_spans_of(pairs, samples),
    ensures
        is_pair_gap(pairs, threshold, gap) == is_gap(samples, threshold, gap),
{
    if is_pair_gap(pairs, threshold, gap) {
        let i = choose|i: int| 0 <= i < pairs.len() && (#[trigger] pairs[i]).1 == gap.start_ts;
        let j = choose|j: int| 0 <= j < pairs.len() && (#[trigger] pairs[j]).0 == gap.end_ts;
        let a = choose|a: int|
            0 <= a < samples.len() && (#[trigger] samples[a]).start_ts == pairs[i].0
                && samples[a].end_ts == pairs[i].1;
        let b = choose|b: int|
            0 <= b < samples.len() && (#[trigger] samples[b]).start_ts == pairs[j].0
                && samples[b].end_ts == pairs[j].1;
        assert(covers_time(samples[a]));
        assert(covers_time(samples[b]));
        assert forall|k: int|
            0 <= k < samples.len() && covers_time(#[trigger] samples[k]) implies samples[k].end_ts
            <= gap.start_ts || gap.end_ts <= samples[k].start_ts by {
            let m = choose|m: int|
                0 <= m < pairs.len() && pairs[m] == (samples[k].start_ts, samples[k].end_ts);
            assert(pairs[m].1 <= gap.start_ts || gap.end_ts <= pairs[m].0);
        }
    }
    if is_gap(samples, threshold, gap) {
        let a = choose|a: int|
            0 <= a < samples.len() && covers_time(#[trigger] samples[a]) && samples[a].end_ts
                == gap.start_ts;
        let b = choose|b: int|
            0 <= b < samples.len() && covers_time(#[trigger] samples[b]) && samples[b].start_ts
                == gap.end_ts;
        let i = choose|i: int|
            0 <= i < pairs.len() && pairs[i] == (samples[a].start_ts, samples[a].end_ts);
        let j = choose|j: int|
            0 <= j < pairs.len() && pairs[j] == (samples[b].start_ts, samples[b].end_ts);
        assert(pairs[i].1 == gap.start_ts);
        assert(pairs[j].0 == gap.end_ts);
        assert forall|k: int| 0 <= k < pairs.len() implies (#[trigger] pairs[k]).1 <= gap.start_ts
            || gap.end_ts <= pairs[k].0 by {
            let m = choose|m: int|
                0 <= m < samples.len() && (#[trigger] samples[m]).start_ts == pairs[k].0
                    && samples[m].end_ts == pairs[k].1;
            assert(covers_time(samples[m]));
        }
    }
}

/// The holes between sorted spans.
fn pair_gaps(spans: &[(i64, i64)], threshold: i64) -> (gaps: Vec<Gap>)
    requires
        threshold >= 1,
        order::ascending(spans@),
        forall|j: int| 0 <= j < spans@.len() ==> (#[trigger] spans@[j]).0 < spans@[j].1,
    ensures
        forall|gap: Gap| #[trigger]
            gaps@.contains(gap) <==> is_pair_gap(spans@, threshold as int, gap),
        chronological(gaps@),
{
    let mut gaps: Vec<Gap> = Vec::new();
    if spans.len() == 0 {
        return gaps;
    }
    let mut covered_until: i64 = spans[0].1;
    let mut i: usize = 1;
    proof {
        assert forall|gap: Gap|
            is_pair_gap(spans@, threshold as int, gap) implies gap.end_ts != spans@[0].0 by {
            let k = choose|k: int| 0 <= k < spans@.len() && (#[trigger] spans@[k]).1 == gap.start_ts;
            assert(order::pair_le(spans@[0], spans@[k]));
        }
    }
    while i < spans.len()
        invariant
            1 <= i <= spans@.len(),
            threshold >= 1,
            order::ascending(spans@),
            forall|j: int| 0 <= j < spans@.len() ==> (#[trigger] spans@[j]).0 < spans@[j].1,
            forall|j: int| 0 <= j < i ==> (#[trigger] spans@[j]).1 <= covered_until,
            exists|j: int| 0 <= j < i && (#[trigger] spans@[j]).1 == covered_until,
            forall|gap: Gap| #[trigger]
                gaps@.contains(gap) ==> is_pair_gap(spans@, threshold as int, gap),
            forall|gap: Gap|
                is_pair_gap(spans@, threshold as int, gap) && (exists|j: int|
                    0 <= j < i && (#[trigger] spans@[j]).0 == gap.end_ts)
                    ==> #[trigger] gaps@.contains(gap),
            forall|k: int| 0 <= k < gaps@.len() ==> (#[trigger] gaps@[k]).end_ts <= covered_until,
            chronological(gaps@),
        decreases spans@.len() - i,
    {
        let (start, end) = spans[i];
        let ghost before = gaps@;
        let gap: Gap = Gap { start_ts: covered_until, end_ts: start };
        let wide: bool = start as i128 - covered_until as i128 >= threshold as i128;
        if wide {
            gaps.push(gap);
        }
        proof {
            let t = threshold as int;
            if wide {
                assert(spans@[i as int].0 == start);
                assert forall|k: int| 0 <= k < spans@.len() implies (#[trigger] spans@[k]).1
                    <= gap.start_ts || gap.end_ts <= spans@[k].0 by {
                    if k >= i {
                        assert(order::pair_le(spans@[i as int], spans@[k]));
                    }
                }
                assert(is_pair_gap(spans@, t, gap));
                assert(gaps@[before.len() as int] == gap);
            }
            assert forall|g: Gap| #[trigger] gaps@.contains(g) implies is_pair_gap(
                spans@,
                t,
                g,
            ) by {
                let k = choose|k: int| 0 <= k < gaps@.len() && gaps@[k] == g;
                if k < before.len() {
                    assert(before[k] == g);
                    assert(before.contains(g));
                }
            }
            assert forall|g: Gap|
                is_pair_gap(spans@, t, g) && (exists|j: int|
                    0 <= j < i + 1 && (#[trigger] spans@[j]).0 == g.end_ts) implies #[trigger] gaps@.contains(
                g,
            ) by {
                if exists|j: int| 0 <= j < i && (#[trigger] spans@[j]).0 == g.end_ts {
                    assert(before.contains(g));
                    let k = choose|k: int| 0 <= k < before.len() && before[k] == g;
                    assert(gaps@[k] == g);
                } else {
                    assert(g.end_ts == start);
                    assert forall|k: int| 0 <= k < i implies (#[trigger] spans@[k]).1
                        <= g.start_ts by {
                        assert(order::pair_le(spans@[k], spans@[i as int]));
                    }
                    let k = choose|k: int|
                        0 <= k < spans@.len() && (#[trigger] spans@[k]).1 == g.start_ts;
                    if k >= i {
                        assert(order::pair_le(spans@[i as int], spans@[k]));
                    }
                    assert(g.start_ts == covered_until);
                    assert(g == gap);
                    assert(wide);
                }
            }
        }
        if end > covered_until {
            covered_until = end;
            proof {
                assert(spans@[i as int].1 == covered_until);
            }
        }
        i = i + 1;
    }
    proof {
        assert forall|gap: Gap| is_pair_gap(spans@, threshold as int, gap) implies #[trigger] gaps@.contains(
            gap,
        ) by {
            let k = choose|k: int| 0 <= k < spans@.len() && (#[trigger] spans@[k]).0 == gap.end_ts;
            assert(spans@[k].0 == gap.end_ts);
        }
    }
    gaps
}

// ---------------------------------------------------------------------------------------
// The calendar
// ---------------------------------------------------------------------------------------

/// The facet a day of the calendar belongs to.
pub open spec fn facet_of_day(day: int, grouping: Grouping) -> Option<int> {
    match timeutil::date_of_day(day) {
        None => None,
        Some(date) => {
            let one_based = match grouping {
                Grouping::Month => date.month as int,
                Grouping::Week => date.iso_week as int,
            };
            if 1 <= one_based <= grouping.facets() {
                Some(one_based - 1)
            } else {
                None
            }
        },
    }
}

/// How many of the days from `first` on, `count` of them, belong to a facet.
pub open spec fn days_in_facet(first: int, count: nat, grouping: Grouping, facet: int) -> nat {
    sums::count_where(count, |k: int| facet_of_day(first + k, grouping) == Some(facet))
}

/// The number of days from one to another, both included, or zero backwards.
pub open spec fn days_between(first: int, last: int) -> nat {
    model::later(last - first + 1, 0) as nat
}

/// The number of days a history spans, from its first to its last and never less than one.
pub open spec fn days_spanned(first: int, last: int) -> int {
    model::later(last - first + 1, 1)
}

/// How many of the days from `first` on, `count` of them, the calendar reaches.
pub open spec fn dated_days(first: int, count: nat) -> nat {
    sums::count_where(count, |k: int| timeutil::date_of_day(first + k) is Some)
}

/// The numbers of a list of day counts.
pub open spec fn day_counts(days: Seq<u32>) -> Seq<nat> {
    Seq::new(days.len(), |i: int| days[i] as nat)
}

/// The facet a day of the calendar belongs to.
fn day_facet(day: DayNumber, grouping: Grouping) -> (facet: Option<usize>)
    ensures
        match facet {
            Some(facet) => facet_of_day(day as int, grouping) == Some(facet as int) && facet
                < grouping.facets(),
            None => facet_of_day(day as int, grouping) is None,
        },
        facet is Some <==> timeutil::date_of_day(day as int) is Some,
{
    match timeutil::day_to_date(day) {
        None => None,
        Some(date) => {
            let one_based: usize = match grouping {
                Grouping::Month => date.month as usize,
                Grouping::Week => date.iso_week as usize,
            };
            if 1 <= one_based && one_based <= grouping.facet_count() {
                Some(one_based - 1)
            } else {
                None
            }
        },
    }
}

/// How many days of the calendar each facet could have covered, given the span the data
/// runs over.
///
/// This is the denominator behind "11 of 30 days": for a report covering 14 March to
/// 20 August, March can only ever contribute 18 days, and December none at all. Every day
/// of the span counts towards exactly one facet.
pub fn possible_days_per_facet(
    first_ts: i64,
    last_ts: i64,
    tz: &Zone,
    grouping: Grouping,
) -> (possible: Vec<u32>)
    ensures
        possible@.len() == grouping.facets(),
        ({
            let from = model::earlier(first_ts as int, last_ts as int);
            let to = model::later(first_ts as int, last_ts as int);
            let first = timeutil::local_time_at(tz@, from).parts.day as int;
            let last = timeutil::local_time_at(tz@, to).parts.day as int;
            &&& forall|facet: int|
                0 <= facet < possible@.len() ==> #[trigger] possible@[facet] == days_in_facet(
                    first,
                    days_between(first, last),
                    grouping,
                    facet,
                )
            &&& sums::sum(day_counts(possible@)) == dated_days(first, days_between(first, last))
        }),
{
    let (from, to) = if first_ts <= last_ts {
        (first_ts, last_ts)
    } else {
        (last_ts, first_ts)
    };
    let first: DayNumber = timeutil::local_day(from, tz);
    let last: DayNumber = timeutil::local_day(to, tz);
    let mut possible: Vec<u32> = Vec::new();
    let mut facet: usize = 0;
    while facet < grouping.facet_count()
        invariant
            facet <= grouping.facets(),
            possible@.len() == facet,
            forall|f: int| 0 <= f < facet ==> #[trigger] possible@[f] == 0,
        decreases grouping.facets() - facet,
    {
        possible.push(0);
        facet = facet + 1;
    }
    let count: u32 = if first <= last {
        (last - first + 1) as u32
    } else {
        0
    };
    proof {
        sums::sum_of_zeros(day_counts(possible@));
    }
    let mut k: u32 = 0;
    while k < count
        invariant
            k <= count,
            count == days_between(first as int, last as int),
            possible@.len() == grouping.facets(),
            timeutil::FIRST_DAY - 1 <= first,
            last <= timeutil::LAST_DAY + 1,
            forall|f: int|
                0 <= f < possible@.len() ==> #[trigger] possible@[f] <= k && possible@[f]
                    == days_in_facet(first as int, k as nat, grouping, f),
            sums::sum(day_counts(possible@)) == dated_days(first as int, k as nat),
        decreases count - k,
    {
        let day: DayNumber = first + k as i32;
        let ghost before = possible@;
        let found: Option<usize> = day_facet(day, grouping);
        if let Some(facet) = found {
            let days: u32 = possible[facet];
            possible[facet] = days + 1;
        }
        proof {
            assert forall|f: int| 0 <= f < possible@.len() implies #[trigger] possible@[f] <= k + 1
                && possible@[f] == days_in_facet(first as int, (k + 1) as nat, grouping, f) by {
                let holds = |k: int| facet_of_day(first as int + k, grouping) == Some(f);
                assert(before[f] == days_in_facet(first as int, k as nat, grouping, f));
                assert(holds(k as int) == (facet_of_day(day as int, grouping) == Some(f)));
            }
            let dated = |k: int| timeutil::date_of_day(first as int + k) is Some;
            assert(dated(k as int) == (timeutil::date_of_day(day as int) is Some));
            if let Some(facet) = found {
                assert(day_counts(possible@) =~= day_counts(before).update(
                    facet as int,
                    day_counts(before)[facet as int] + 1,
                ));
                sums::sum_of_update(day_counts(before), facet as int, 1);
            }
        }
        k = k + 1;
    }
    possible
}

/// Could a facet have been recorded at all between two days?
pub open spec fn reachable(index: int, first_day: int, last_day: int, grouping: Grouping) -> bool {
    exists|day: int|
        first_day <= day <= last_day && #[trigger] facet_of_day(day, grouping) == Some(index)
}

/// Could a facet have been recorded at all between two days?
///
/// Without this a three week report would claim that the other eleven months are
/// "missing", which is noise rather than information.
pub fn facet_is_reachable(
    index: usize,
    first_day: DayNumber,
    last_day: DayNumber,
    grouping: Grouping,
) -> (yes: bool)
    ensures
        yes == reachable(index as int, first_day as int, last_day as int, grouping),
{
    if first_day > last_day {
        return false;
    }
    let mut day: DayNumber = first_day;
    loop
        invariant
            first_day <= day <= last_day,
            forall|d: int|
                first_day <= d < day ==> #[trigger] facet_of_day(d, grouping) != Some(index as int),
        decreases last_day - day,
    {
        if let Some(facet) = day_facet(day, grouping) {
            if facet == index {
                return true;
            }
        }
        if day == last_day {
            return false;
        }
        day = day + 1;
    }
}

/// The facet a UTC instant belongs to, used when checking a window against a grouping.
pub fn facet_of(ts: i64, tz: &Zone, grouping: Grouping) -> (facet: Option<usize>)
    ensures
        facet == grouping.facet_of(timeutil::local_time_at(tz@, ts as int).parts),
{
    grouping.facet_index(&timeutil::local_parts(ts, tz))
}

// ---------------------------------------------------------------------------------------
// The overall shape
// ---------------------------------------------------------------------------------------

/// The overall shape of the available history.
#[derive(Debug, Clone, PartialEq)]
pub struct Coverage {
    /// First and last instant covered by any reading.
    pub first_ts: i64,
    pub last_ts: i64,
    /// Calendar days between them, inclusive.
    pub span_days: u32,
    /// Distinct local days that carry at least one reading.
    pub observed_days: u32,
    /// Of those, the days recorded for most of their hours rather than a sliver.
    pub full_days: u32,
    /// Total observation time, in seconds.
    pub observed_seconds: u128,
    /// Holes longer than the reporting threshold, in chronological order.
    pub gaps: Vec<Gap>,
    /// The threshold those gaps were found with, in seconds.
    pub gap_threshold_seconds: i64,
    /// Facet labels with no data at all, e.g. the months never recorded.
    pub missing_facets: Vec<String>,
}

/// The texts of a list.
pub open spec fn texts(list: Seq<String>) -> Seq<Seq<char>> {
    Seq::new(list.len(), |i: int| list[i]@)
}

/// Whether a facet belongs among the missing ones.
pub open spec fn is_missing(
    index: int,
    present: Seq<usize>,
    first_day: int,
    last_day: int,
    grouping: Grouping,
) -> bool {
    !present.contains(index as usize) && reachable(index, first_day, last_day, grouping)
}

/// The short labels of the missing ones among the first `count` facets, in order.
pub open spec fn missing_labels(
    count: nat,
    present: Seq<usize>,
    first_day: int,
    last_day: int,
    grouping: Grouping,
) -> Seq<Seq<char>>
    decreases count,
{
    if count == 0 {
        Seq::empty()
    } else {
        let rest = missing_labels((count - 1) as nat, present, first_day, last_day, grouping);
        if is_missing(count - 1, present, first_day, last_day, grouping) {
            rest.push(grouping.short_label_text(count - 1))
        } else {
            rest
        }
    }
}

/// Seconds inside a list of gaps.
pub open spec fn gap_seconds(gaps: Seq<Gap>) -> int
    decreases gaps.len(),
{
    if gaps.len() == 0 {
        0
    } else {
        gap_seconds(gaps.drop_last()) + gaps.last().length()
    }
}

/// Where the longest of a list of gaps stands; of several equally long ones the last.
pub open spec fn longest_at(gaps: Seq<Gap>) -> int
    decreases gaps.len(),
{
    if gaps.len() <= 1 {
        0
    } else {
        let before = longest_at(gaps.drop_last());
        if gaps.last().length() >= gaps[before].length() {
            gaps.len() - 1
        } else {
            before
        }
    }
}

/// The local day that an exclusive end still belongs to: one finishing at midnight covered
/// the day before.
pub open spec fn last_day_of(zone: Seq<char>, first_ts: int, last_ts: int) -> int {
    timeutil::local_time_at(zone, model::later(last_ts - 1, first_ts)).parts.day as int
}

impl Coverage {
    /// Gaps are in order and lie between the first and the last instant, which are no
    /// further apart than a duration can tell.
    pub open spec fn wf(self) -> bool {
        &&& self.first_ts < self.last_ts
        &&& self.last_ts - self.first_ts <= i64::MAX
        &&& chronological(self.gaps@)
        &&& forall|i: int|
            0 <= i < self.gaps@.len() ==> self.first_ts < (#[trigger] self.gaps@[i]).start_ts
                < self.gaps@[i].end_ts < self.last_ts
    }

    /// Describe what a set of samples covers. `observed_days` comes from the grid, which
    /// already knows which local days were touched.
    pub fn describe<W>(
        samples: &[Sample<W>],
        observed_days: u32,
        full_days: u32,
        present_facets: &[usize],
        grouping: Grouping,
        tz: &Zone,
        gap_threshold_seconds: i64,
    ) -> (coverage: Option<Coverage>)
        requires
            model::span_of(samples@) matches Some((first, last)) ==> last - first <= i64::MAX,
        ensures
            coverage is Some <==> model::span_of(samples@) is Some,
            coverage matches Some(coverage) ==> {
                let first_day = timeutil::local_time_at(tz@, coverage.first_ts as int).parts.day
                    as int;
                let last_day = last_day_of(
                    tz@,
                    coverage.first_ts as int,
                    coverage.last_ts as int,
                );
                &&& coverage.wf()
                &&& model::span_of(samples@) == Some(
                    (coverage.first_ts as int, coverage.last_ts as int),
                )
                &&& coverage.span_days == days_spanned(first_day, last_day)
                &&& coverage.observed_days == observed_days
                &&& coverage.full_days == full_days
                &&& coverage.observed_seconds == model::total_length(samples@)
                &&& forall|gap: Gap| #[trigger]
                    coverage.gaps@.contains(gap) <==> is_gap(
                        samples@,
                        model::later(gap_threshold_seconds as int, 1),
                        gap,
                    )
                &&& coverage.gap_threshold_seconds == gap_threshold_seconds
                &&& texts(coverage.missing_facets@) == missing_labels(
                    grouping.facets(),
                    present_facets@,
                    first_day,
                    last_day,
                    grouping,
                )
            },
    {
        let (first_ts, last_ts) = match model::observed_span(samples) {
            Some(span) => span,
            None => {
                return None;
            },
        };
        let first_day: DayNumber = timeutil::local_day(first_ts, tz);
        // The end instant is exclusive: a run finishing at midnight covered the day before.
        let last_day: DayNumber = timeutil::local_day(last_ts - 1, tz);
        let found: Vec<Gap> = gaps(samples, gap_threshold_seconds);
        proof {
            gaps_lie_inside(samples@, found@, gap_threshold_seconds as int);
        }
        let span_days: u32 = if first_day <= last_day {
            (last_day - first_day + 1) as u32
        } else {
            1
        };
        Some(
            Coverage {
                first_ts,
                last_ts,
                span_days,
                observed_days,
                full_days,
                observed_seconds: observed_time(samples),
                gaps: found,
                gap_threshold_seconds,
                missing_facets: missing_facets(present_facets, first_day, last_day, grouping),
            },
        )
    }

    /// Share of the calendar span that carries any data at all.
    pub open spec fn day_share(self) -> Share {
        if self.span_days == 0 {
            Share { part: 0, whole: 1 }
        } else {
            Share { part: self.observed_days as u64, whole: self.span_days as u64 }
        }
    }

    /// Share of the calendar span that carries any data at all.
    pub fn day_fraction(&self) -> (share: Share)
        ensures
            share == self.day_share(),
    {
        if self.span_days == 0 {
            Share { part: 0, whole: 1 }
        } else {
            Share { part: self.observed_days as u64, whole: self.span_days as u64 }
        }
    }

    /// The longest hole, if any; of several equally long ones the last.
    pub fn longest_gap(&self) -> (longest: Option<&Gap>)
        requires
            self.wf(),
        ensures
            match longest {
                None => self.gaps@.len() == 0,
                Some(gap) => self.gaps@.len() > 0 && *gap == self.gaps@[longest_at(self.gaps@)] && (
                forall|j: int|
                    0 <= j < self.gaps@.len() ==> (#[trigger] self.gaps@[j]).length()
                        <= gap.length()),
            },
    {
        if self.gaps.len() == 0 {
            return None;
        }
        let mut best: usize = 0;
        let mut i: usize = 1;
        while i < self.gaps.len()
            invariant
                self.wf(),
                best < i <= self.gaps@.len(),
                best == longest_at(self.gaps@.take(i as int)),
                forall|j: int|
                    0 <= j < i ==> (#[trigger] self.gaps@[j]).length()
                        <= self.gaps@[best as int].length(),
            decreases self.gaps@.len() - i,
        {
            proof {
                assert(self.gaps@[i as int].start_ts > self.first_ts);
                assert(self.gaps@[best as int].start_ts > self.first_ts);
                assert(self.gaps@.take(i + 1).drop_last() =~= self.gaps@.take(i as int));
            }
            if self.gaps[i].seconds() >= self.gaps[best].seconds() {
                best = i;
            }
            i = i + 1;
        }
        proof {
            assert(self.gaps@.take(i as int) =~= self.gaps@);
        }
        Some(&self.gaps[best])
    }

    /// Total time inside reported gaps, in seconds.
    pub fn missing_seconds(&self) -> (seconds: i64)
        requires
            self.wf(),
        ensures
            seconds == gap_seconds(self.gaps@),
            0 <= seconds <= self.last_ts - self.first_ts,
    {
        let mut seconds: i64 = 0;
        let mut i: usize = 0;
        while i < self.gaps.len()
            invariant
                self.wf(),
                i <= self.gaps@.len(),
                seconds == gap_seconds(self.gaps@.take(i as int)),
                0 <= seconds <= self.last_ts - self.first_ts,
                i > 0 ==> seconds <= self.gaps@[i - 1].end_ts - self.first_ts,
            decreases self.gaps@.len() - i,
        {
            proof {
                assert(self.gaps@.take(i + 1).drop_last() =~= self.gaps@.take(i as int));
                assert(self.gaps@[i as int].start_ts > self.first_ts);
                assert(i > 0 ==> self.gaps@[i - 1].end_ts <= self.gaps@[i as int].start_ts);
            }
            seconds = seconds + self.gaps[i].seconds();
            i = i + 1;
        }
        proof {
            assert(self.gaps@.take(i as int) =~= self.gaps@);
        }
        seconds
    }

    /// First and last local date, for labels.
    pub fn local_dates(&self, tz: &Zone) -> (dates: (Option<CalendarDate>, Option<CalendarDate>))
        ensures
            dates.0 == timeutil::date_of_day(
                timeutil::local_time_at(tz@, self.first_ts as int).parts.day as int,
            ),
            dates.1 == timeutil::date_of_day(
                last_day_of(tz@, self.first_ts as int, self.last_ts as int),
            ),
    {
        let last: i64 = if self.last_ts > self.first_ts {
            self.last_ts - 1
        } else {
            self.first_ts
        };
        (
            timeutil::day_to_date(timeutil::local_day(self.first_ts, tz)),
            timeutil::day_to_date(timeutil::local_day(last, tz)),
        )
    }

    /// Whether the span reaches all the way round the seasons.
    ///
    /// Below a year, every facet rests on a single season rather than an average of
    /// several, and whole months are missing simply because they have not happened yet.
    pub fn covers_full_year(&self) -> (yes: bool)
        ensures
            yes == (self.span_days >= 365),
    {
        self.span_days >= 365
    }

    /// Seconds of the calendar days the span reaches over.
    pub open spec fn span_seconds(self) -> int {
        self.span_days * 86_400
    }

    /// Share of the span lost to reported outages, never more than all of it.
    pub open spec fn lost_share(self) -> Share {
        if self.span_seconds() == 0 {
            Share { part: 0, whole: 1 }
        } else {
            Share {
                part: model::earlier(gap_seconds(self.gaps@), self.span_seconds()) as u64,
                whole: self.span_seconds() as u64,
            }
        }
    }

    /// Share of the span lost to reported outages.
    ///
    /// This is the honest measure of how holed the history is: unlike a day count it
    /// cannot be inflated by an hour of data spilling over a local midnight, and unlike
    /// raw observation time it is not dragged down by an inverter that sleeps at night.
    pub fn missing_fraction(&self) -> (share: Share)
        requires
            self.wf(),
        ensures
            share == self.lost_share(),
            gap_seconds(self.gaps@) >= 0,
    {
        let missing: u64 = self.missing_seconds() as u64;
        let whole: u64 = self.span_days as u64 * 86_400;
        if whole == 0 {
            return Share { part: 0, whole: 1 };
        }
        Share {
            part: if missing <= whole {
                missing
            } else {
                whole
            },
            whole,
        }
    }

    /// Whether large parts of the span were never recorded: fewer than thirty days of data,
    /// or more than 15% of the span lost to outages.
    pub open spec fn sparse(self) -> bool {
        self.observed_days < 30 || 100 * gap_seconds(self.gaps@) > 15 * self.span_seconds()
            && self.span_seconds() > 0
    }

    /// Whether large parts of the span were never recorded.
    pub fn is_sparse(&self) -> (yes: bool)
        requires
            self.wf(),
        ensures
            yes == self.sparse(),
    {
        if self.observed_days < 30 {
            return true;
        }
        let share: Share = self.missing_fraction();
        100 * share.part as u128 > 15 * share.whole as u128
    }

    /// Whether the reader should be warned about the history at all.
    pub open spec fn calls_for_caution(self) -> bool {
        self.span_days < 365 || self.sparse()
    }

    /// Whether the reader should be warned about the history at all.
    pub fn needs_caution(&self) -> (yes: bool)
        requires
            self.wf(),
        ensures
            yes == self.calls_for_caution(),
    {
        !self.covers_full_year() || self.is_sparse()
    }
}

/// Every hole lies strictly between the first and the last instant covered.
proof fn gaps_lie_inside<W>(samples: Seq<Sample<W>>, gaps: Seq<Gap>, threshold: int)
    requires
        forall|gap: Gap| #[trigger]
            gaps.contains(gap) <==> is_gap(samples, model::later(threshold, 1), gap),
    ensures
        match model::span_of(samples) {
            Some((first, last)) => forall|i: int|
                0 <= i < gaps.len() ==> first < (#[trigger] gaps[i]).start_ts < gaps[i].end_ts
                    < last,
            None => gaps.len() == 0,
        },
{
    model::the_span_is_tight(samples);
    assert forall|i: int| 0 <= i < gaps.len() implies is_gap(
        samples,
        model::later(threshold, 1),
        #[trigger] gaps[i],
    ) by {
        assert(gaps.contains(gaps[i]));
    }
    if gaps.len() > 0 {
        assert(is_gap(samples, model::later(threshold, 1), gaps[0]));
    }
}

/// Seconds the samples were in effect, all together.
fn observed_time<W>(samples: &[Sample<W>]) -> (seconds: u128)
    ensures
        seconds == model::total_length(samples@),
{
    let mut seconds: u128 = 0;
    let mut i: usize = 0;
    while i < samples.len()
        invariant
            i <= samples@.len(),
            seconds == model::total_length(samples@.take(i as int)),
        decreases samples@.len() - i,
    {
        proof {
            model::total_length_fits(samples@.take(i + 1));
            assert(samples@.take(i + 1).drop_last() =~= samples@.take(i as int));
        }
        let (start, end) = (samples[i].start_ts, samples[i].end_ts);
        if start < end {
            seconds = seconds + (end as i128 - start as i128) as u128;
        }
        i = i + 1;
    }
    proof {
        assert(samples@.take(i as int) =~= samples@);
    }
    seconds
}

/// The short labels of the facets that could have been recorded and were not.
fn missing_facets(
    present: &[usize],
    first_day: DayNumber,
    last_day: DayNumber,
    grouping: Grouping,
) -> (labels: Vec<String>)
    ensures
        texts(labels@) == missing_labels(
            grouping.facets(),
            present@,
            first_day as int,
            last_day as int,
            grouping,
        ),
{
    let mut labels: Vec<String> = Vec::new();
    let mut index: usize = 0;
    proof {
        assert(texts(labels@) =~= Seq::empty());
    }
    while index < grouping.facet_count()
        invariant
            index <= grouping.facets(),
            texts(labels@) == missing_labels(
                index as nat,
                present@,
                first_day as int,
                last_day as int,
                grouping,
            ),
        decreases grouping.facets() - index,
    {
        let ghost before = labels@;
        if !contains_index(present, index) && facet_is_reachable(
            index,
            first_day,
            last_day,
            grouping,
        ) {
            let label: String = grouping.facet_short_label(index);
            labels.push(label);
            proof {
                assert(texts(labels@) =~= texts(before).push(label@));
            }
        }
        index = index + 1;
    }
    labels
}

fn contains_index(list: &[usize], index: usize) -> (found: bool)
    ensures
        found == list@.contains(index),
{
    let mut i: usize = 0;
    while i < list.len()
        invariant
            i <= list@.len(),
            forall|j: int| 0 <= j < i ==> list@[j] != index,
        decreases list@.len() - i,
    {
        if list[i] == index {
            return true;
        }
        i = i + 1;
    }
    false
}

/// A gap is a silence: it lasts at least as long as asked for, no instant of it is covered by
/// any sample, one sample ends where it begins and another begins where it ends.
pub proof fn gaps_are_silent<W>(
    samples: Seq<Sample<W>>,
    threshold: int,
    gap: Gap,
    i: int,
    instant: int,
)
    requires
        is_gap(samples, threshold, gap),
        0 <= i < samples.len(),
        gap.start_ts <= instant < gap.end_ts,
    ensures
        gap.end_ts - gap.start_ts >= threshold,
        !(samples[i].start_ts <= instant < samples[i].end_ts),
        exists|k: int|
            0 <= k < samples.len() && (#[trigger] samples[k]).end_ts == gap.start_ts
                && samples[k].start_ts < samples[k].end_ts,
        exists|k: int|
            0 <= k < samples.len() && (#[trigger] samples[k]).start_ts == gap.end_ts
                && samples[k].start_ts < samples[k].end_ts,
{
    let a = choose|a: int|
        0 <= a < samples.len() && covers_time(#[trigger] samples[a]) && samples[a].end_ts
            == gap.start_ts;
    let b = choose|b: int|
        0 <= b < samples.len() && covers_time(#[trigger] samples[b]) && samples[b].start_ts
            == gap.end_ts;
    assert(samples[a].end_ts == gap.start_ts && samples[b].start_ts == gap.end_ts);
    if samples[i].start_ts < samples[i].end_ts {
        assert(covers_time(samples[i]));
    }
}

/// Where the last of the samples that end by an instant ends.
proof fn last_end_before<W>(samples: Seq<Sample<W>>, instant: int) -> (found: int)
    requires
        exists|i: int|
            0 <= i < samples.len() && covers_time(#[trigger] samples[i]) && samples[i].end_ts
                <= instant,
    ensures
        0 <= found < samples.len(),
        covers_time(samples[found]),
        samples[found].end_ts <= instant,
        forall|i: int|
            0 <= i < samples.len() && covers_time(#[trigger] samples[i]) && samples[i].end_ts
                <= instant ==> samples[i].end_ts <= samples[found].end_ts,
    decreases samples.len(),
{
    let rest = samples.drop_last();
    let last = samples.len() - 1;
    if exists|i: int|
        0 <= i < rest.len() && covers_time(#[trigger] rest[i]) && rest[i].end_ts <= instant {
        let before = last_end_before(rest, instant);
        let found = if covers_time(samples[last]) && samples[before].end_ts < samples[last].end_ts
            <= instant {
            last
        } else {
            before
        };
        assert forall|i: int|
            0 <= i < samples.len() && covers_time(#[trigger] samples[i]) && samples[i].end_ts
                <= instant implies samples[i].end_ts <= samples[found].end_ts by {
            if i < last {
                assert(rest[i] == samples[i]);
            }
        }
        found
    } else {
        assert forall|i: int|
            0 <= i < samples.len() && covers_time(#[trigger] samples[i]) && samples[i].end_ts
                <= instant implies i == last by {
            if i < last {
                assert(rest[i] == samples[i]);
            }
        }
        last
    }
}

/// Where the first of the samples that start from an instant on starts.
proof fn first_start_after<W>(samples: Seq<Sample<W>>, instant: int) -> (found: int)
    requires
        exists|i: int|
            0 <= i < samples.len() && covers_time(#[trigger] samples[i]) && samples[i].start_ts
                >= instant,
    ensures
        0 <= found < samples.len(),
        covers_time(samples[found]),
        samples[found].start_ts >= instant,
        forall|i: int|
            0 <= i < samples.len() && covers_time(#[trigger] samples[i]) && samples[i].start_ts
                >= instant ==> samples[i].start_ts >= samples[found].start_ts,
    decreases samples.len(),
{
    let rest = samples.drop_last();
    let last = samples.len() - 1;
    if exists|i: int|
        0 <= i < rest.len() && covers_time(#[trigger] rest[i]) && rest[i].start_ts >= instant {
        let before = first_start_after(rest, instant);
        let found = if covers_time(samples[last]) && samples[before].start_ts
            > samples[last].start_ts >= instant {
            last
        } else {
            before
        };
        assert forall|i: int|
            0 <= i < samples.len() && covers_time(#[trigger] samples[i]) && samples[i].start_ts
                >= instant implies samples[i].start_ts >= samples[found].start_ts by {
            if i < last {
                assert(rest[i] == samples[i]);
            }
        }
        found
    } else {
        assert forall|i: int|
            0 <= i < samples.len() && covers_time(#[trigger] samples[i]) && samples[i].start_ts
                >= instant implies i == last by {
            if i < last {
                assert(rest[i] == samples[i]);
            }
        }
        last
    }
}

/// No silence goes unreported: whatever stretch between two observations is long enough and
/// covered by no sample lies inside a gap.
pub proof fn every_long_silence_lies_in_a_gap<W>(
    samples: Seq<Sample<W>>,
    threshold: int,
    from: int,
    to: int,
    earlier: int,
    later: int,
)
    requires
        from < to,
        to - from >= threshold,
        forall|i: int|
            0 <= i < samples.len() && (#[trigger] samples[i]).start_ts < samples[i].end_ts
                ==> samples[i].end_ts <= from || to <= samples[i].start_ts,
        0 <= earlier < samples.len(),
        0 <= later < samples.len(),
        samples[earlier].start_ts < samples[earlier].end_ts <= from,
        to <= samples[later].start_ts < samples[later].end_ts,
    ensures
        exists|gap: Gap| #[trigger]
            is_gap(samples, threshold, gap) && gap.start_ts <= from && to <= gap.end_ts,
{
    assert(covers_time(samples[earlier]));
    assert(covers_time(samples[later]));
    let a = last_end_before(samples, from);
    let b = first_start_after(samples, to);
    let gap = Gap { start_ts: samples[a].end_ts, end_ts: samples[b].start_ts };
    assert forall|i: int|
        0 <= i < samples.len() && covers_time(#[trigger] samples[i]) implies samples[i].end_ts
        <= gap.start_ts || gap.end_ts <= samples[i].start_ts by {
        assert(samples[i].start_ts < samples[i].end_ts);
    }
    assert(is_gap(samples, threshold, gap));
}

/// A day belongs to the facet that every local instant on it belongs to.
pub proof fn days_belong_to_the_facet_of_their_instants(
    parts: timeutil::LocalParts,
    grouping: Grouping,
)
    requires
        parts.in_range(),
        timeutil::FIRST_DAY <= parts.day <= timeutil::LAST_DAY,
    ensures
        facet_of_day(parts.day as int, grouping) == Some(
            match grouping {
                Grouping::Month => parts.month - 1,
                Grouping::Week => parts.iso_week - 1,
            },
        ),
        facet_of_day(parts.day as int, grouping) == Some(
            grouping.facet_of(parts)->0 as int,
        ),
{
}

/// The days that a facet could have covered add up day by day: one for every day whose date
/// is in its month or ISO week.
pub proof fn possible_days_add_up(first: int, count: nat, more: nat, grouping: Grouping, facet: int)
    ensures
        days_in_facet(first, count + more, grouping, facet) == days_in_facet(
            first,
            count,
            grouping,
            facet,
        ) + days_in_facet(first + count, more, grouping, facet),
        days_in_facet(first, 0, grouping, facet) == 0,
        0 <= facet < grouping.facets() ==> days_in_facet(first, 1, grouping, facet) == if (
        timeutil::date_of_day(first) matches Some(date) && match grouping {
            Grouping::Month => date.month as int,
            Grouping::Week => date.iso_week as int,
        } == facet + 1) {
            1nat
        } else {
            0nat
        },
    decreases more,
{
    let all = |k: int| facet_of_day(first + k, grouping) == Some(facet);
    let rest = |k: int| facet_of_day(first + count + k, grouping) == Some(facet);
    if more > 0 {
        possible_days_add_up(first, count, (more - 1) as nat, grouping, facet);
        assert(all(count + more - 1) == rest(more - 1));
    }
    reveal_with_fuel(sums::count_where, 2);
    assert(all(0) == (facet_of_day(first, grouping) == Some(facet)));
}

/// A facet is reachable exactly when the calendar of the span holds a day of it.
pub proof fn reachable_facets_have_possible_days(
    index: int,
    first_day: int,
    last_day: int,
    grouping: Grouping,
)
    requires
        first_day <= last_day,
    ensures
        reachable(index, first_day, last_day, grouping) <==> days_in_facet(
            first_day,
            (last_day - first_day + 1) as nat,
            grouping,
            index,
        ) > 0,
{
    let n = (last_day - first_day + 1) as nat;
    let holds = |k: int| facet_of_day(first_day + k, grouping) == Some(index);
    if reachable(index, first_day, last_day, grouping) {
        let day = choose|day: int|
            first_day <= day <= last_day && #[trigger] facet_of_day(day, grouping) == Some(index);
        let k = day - first_day;
        assert(holds(k));
        sums::counts_never_fall((k + 1) as nat, n, holds);
    }
    if days_in_facet(first_day, n, grouping, index) > 0 {
        sums::a_count_has_a_witness(n, holds);
        let k = choose|k: int| 0 <= k < n && #[trigger] holds(k);
        assert(facet_of_day(first_day + k, grouping) == Some(index));
    }
}

/// Whether a facet has a day in the span but no data.
pub open spec fn went_unrecorded(
    index: int,
    present: Seq<usize>,
    first_day: int,
    last_day: int,
    grouping: Grouping,
) -> bool {
    &&& forall|k: int| 0 <= k < present.len() ==> #[trigger] present[k] != index
    &&& exists|day: int|
        first_day <= day <= last_day && (#[trigger] timeutil::date_of_day(day)) is Some && (
        match grouping {
            Grouping::Month => timeutil::date_of_day(day)->0.month as int,
            Grouping::Week => timeutil::date_of_day(day)->0.iso_week as int,
        }) == index + 1
}

/// How many of the first `count` facets went unrecorded.
pub open spec fn unrecorded(
    count: nat,
    present: Seq<usize>,
    first_day: int,
    last_day: int,
    grouping: Grouping,
) -> nat {
    sums::count_where(
        count,
        |i: int| went_unrecorded(i, present, first_day, last_day, grouping),
    )
}

/// The facets named as missing are those that the span reaches over and nothing was recorded
/// in, each by its short label and in calendar order, and no others.
pub proof fn missing_facets_went_unrecorded(
    count: nat,
    present: Seq<usize>,
    first_day: int,
    last_day: int,
    grouping: Grouping,
    index: int,
)
    requires
        0 <= index < count <= grouping.facets(),
    ensures
        missing_labels(count, present, first_day, last_day, grouping).len() == unrecorded(
            count,
            present,
            first_day,
            last_day,
            grouping,
        ),
        went_unrecorded(index, present, first_day, last_day, grouping) ==> missing_labels(
            count,
            present,
            first_day,
            last_day,
            grouping,
        )[unrecorded(index as nat, present, first_day, last_day, grouping) as int]
            == grouping.short_label_text(index),
        went_unrecorded(index, present, first_day, last_day, grouping) ==> unrecorded(
            index as nat,
            present,
            first_day,
            last_day,
            grouping,
        ) < unrecorded(count, present, first_day, last_day, grouping),
    decreases count,
{
    let last = count - 1;
    if last > 0 {
        missing_facets_went_unrecorded(
            last as nat,
            present,
            first_day,
            last_day,
            grouping,
            if index < last {
                index
            } else {
                0
            },
        );
    }
    let holds = |i: int| went_unrecorded(i, present, first_day, last_day, grouping);
    assert(is_missing(last, present, first_day, last_day, grouping) == holds(last)) by {
        if present.contains(last as usize) {
            let k = choose|k: int| 0 <= k < present.len() && present[k] == last as usize;
            assert(present[k] == last);
        }
        if reachable(last, first_day, last_day, grouping) {
            let day = choose|day: int|
                first_day <= day <= last_day && #[trigger] facet_of_day(day, grouping) == Some(
                    last,
                );
            assert(timeutil::date_of_day(day) is Some);
        }
        if holds(last) {
            let day = choose|day: int|
                first_day <= day <= last_day && (#[trigger] timeutil::date_of_day(day)) is Some && (
                match grouping {
                    Grouping::Month => timeutil::date_of_day(day)->0.month as int,
                    Grouping::Week => timeutil::date_of_day(day)->0.iso_week as int,
                }) == last + 1;
            assert(facet_of_day(day, grouping) == Some(last));
        }
    }
    let rest = missing_labels(last as nat, present, first_day, last_day, grouping);
    let now = missing_labels(count, present, first_day, last_day, grouping);
    assert(rest.len() == unrecorded(last as nat, present, first_day, last_day, grouping));
    if index < last && holds(index) {
        let k = unrecorded(index as nat, present, first_day, last_day, grouping) as int;
        assert(now[k] == rest[k]);
    }
}

/// The time lost to gaps is what they last, all together.
pub proof fn lost_time_adds_up(gaps: Seq<Gap>, gap: Gap)
    requires
        gap.start_ts <= gap.end_ts,
    ensures
        gap_seconds(gaps.push(gap)) == gap_seconds(gaps) + gap.end_ts - gap.start_ts,
        gap_seconds(Seq::<Gap>::empty()) == 0,
{
    assert(gaps.push(gap).drop_last() =~= gaps);
}

/// The longest gap is one of them, no other lasts longer, and none after it as long.
pub proof fn the_longest_gap_is_the_longest(gaps: Seq<Gap>, i: int)
    requires
        0 <= i < gaps.len(),
        forall|k: int| 0 <= k < gaps.len() ==> (#[trigger] gaps[k]).start_ts < gaps[k].end_ts,
    ensures
        0 <= longest_at(gaps) < gaps.len(),
        gaps[i].end_ts - gaps[i].start_ts <= gaps[longest_at(gaps)].end_ts
            - gaps[longest_at(gaps)].start_ts,
        i > longest_at(gaps) ==> gaps[i].end_ts - gaps[i].start_ts
            < gaps[longest_at(gaps)].end_ts - gaps[longest_at(gaps)].start_ts,
    decreases gaps.len(),
{
    if gaps.len() > 1 {
        let rest = gaps.drop_last();
        assert forall|k: int| 0 <= k < rest.len() implies (#[trigger] rest[k]).start_ts
            < rest[k].end_ts by {
            assert(gaps[k].start_ts < gaps[k].end_ts);
        }
        let last = gaps.len() - 1;
        the_longest_gap_is_the_longest(
            rest,
            if i < last {
                i
            } else {
                0
            },
        );
        assert(gaps[last].start_ts < gaps[last].end_ts);
        assert(gaps[longest_at(rest)].start_ts < gaps[longest_at(rest)].end_ts);
    }
}

/// A history is sparse when fewer than thirty days carry data, or when more than fifteen
/// hundredths of the days it spans were lost to gaps; the more is lost, the sparser.
pub proof fn histories_with_long_gaps_are_sparse(coverage: Coverage)
    ensures
        coverage.observed_days < 30 ==> coverage.sparse(),
        coverage.observed_days >= 30 && coverage.span_days > 0 ==> (coverage.sparse()
            <==> gap_seconds(coverage.gaps@) * 100 > 15 * (coverage.span_days * 24 * 3_600)),
        coverage.observed_days >= 30 && coverage.span_days == 0 ==> !coverage.sparse(),
{
}

/// The last day of a history is that of its last instant: one that ends at midnight does not
/// reach into the next day.
pub proof fn the_last_day_holds_the_last_instant(zone: Seq<char>, first_ts: int, last_ts: int)
    requires
        first_ts < last_ts,
        timeutil::FIRST_INSTANT < last_ts <= timeutil::LAST_INSTANT,
    ensures
        last_day_of(zone, first_ts, last_ts) == timeutil::zone_local_time(
            zone,
            last_ts - 1,
        ).parts.day,
{
}

/// A history that starts and ends on one day spans that day, and one more for every day
/// later that it ends.
pub proof fn spans_include_both_ends(first: int, last: int)
    requires
        first <= last,
    ensures
        days_spanned(first, first) == 1,
        days_spanned(first, last + 1) == days_spanned(first, last) + 1,
        days_spanned(first, last) == days_between(first, last),
        days_between(last + 1, first) == 0,
{
}

/// The share of the span with data is the days that carry some out of those spanned; the
/// share lost is the time inside outages out of the whole days spanned, and never more than
/// all of it.
pub proof fn shares_are_out_of_the_span(coverage: Coverage)
    requires
        gap_seconds(coverage.gaps@) >= 0,
    ensures
        coverage.span_days == 0 ==> coverage.day_share() == (Share { part: 0, whole: 1 })
            && coverage.lost_share() == (Share { part: 0, whole: 1 }),
        coverage.span_days > 0 ==> coverage.day_share().part == coverage.observed_days,
        coverage.span_days > 0 ==> coverage.day_share().whole == coverage.span_days,
        coverage.span_days > 0 ==> coverage.lost_share().whole == coverage.span_days * 24 * 3_600,
        coverage.lost_share().part <= coverage.lost_share().whole,
        gap_seconds(coverage.gaps@) <= coverage.span_days * 24 * 3_600
            ==> coverage.lost_share().part == gap_seconds(coverage.gaps@),
        coverage.span_days > 0 && gap_seconds(coverage.gaps@) > coverage.span_days * 24 * 3_600
            ==> coverage.lost_share().part == coverage.lost_share().whole,
        coverage.observed_days >= 30 ==> (coverage.sparse() <==> 100 * coverage.lost_share().part
            > 15 * coverage.lost_share().whole),
{
}

/// A history calls for caution when it is shorter than a year, rests on fewer than thirty
/// days, or lost more than fifteen hundredths of its span; a longer and fuller one does not.
pub proof fn short_and_holed_histories_call_for_caution(coverage: Coverage)
    ensures
        coverage.span_days < 365 ==> coverage.calls_for_caution(),
        coverage.observed_days < 30 ==> coverage.calls_for_caution(),
        coverage.span_days >= 365 && coverage.observed_days >= 30 && 20 * gap_seconds(
            coverage.gaps@,
        ) <= 3 * (coverage.span_days * 24 * 3_600) ==> !coverage.calls_for_caution(),
        coverage.span_days >= 365 && 20 * gap_seconds(coverage.gaps@) > 3 * (coverage.span_days
            * 24 * 3_600) ==> coverage.calls_for_caution(),
{
}

} // verus!
