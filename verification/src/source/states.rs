//! Turning raw `states` rows into samples.
//!
//! Rows here are written whenever the sensor changes, so they are not evenly spaced.
//! Counting rows would over-weight the volatile parts of the day; instead each reading is
//! weighted by how long it stayed in effect, up to `--max-gap` so that a recorder outage
//! does not get counted as hours of steady production.

use vstd::prelude::*;

use crate::model;
use crate::model::Sample;
use crate::order;
use crate::source::schema::StatesLayout;
use crate::sums;
use crate::text;

verus! {

/// The latest instant a reading can stay in effect without another one to confirm it.
pub open spec fn horizon(start: int, max_gap: int) -> int {
    model::earlier(start + model::later(max_gap, 0), i64::MAX as int)
}

/// When the reading at position `i` stops being in effect: at the next reading, or at its
/// horizon if that comes sooner.
pub open spec fn effect_end<W>(readings: Seq<(i64, Option<W>)>, max_gap: int, i: int) -> int {
    let limit = horizon(readings[i].0 as int, max_gap);
    if i + 1 < readings.len() {
        model::earlier(readings[i + 1].0 as int, limit)
    } else {
        limit
    }
}

/// The sample that the reading at position `i` makes, if it makes one.
pub open spec fn sample_at<W>(readings: Seq<(i64, Option<W>)>, max_gap: int, i: int) -> Option<
    Sample<W>,
> {
    let end = effect_end(readings, max_gap, i);
    match readings[i].1 {
        Some(watts) => if end > readings[i].0 {
            Some(Sample { start_ts: readings[i].0, end_ts: end as i64, watts })
        } else {
            None
        },
        None => None,
    }
}

/// The samples that the first `count` readings make, in order.
pub open spec fn samples_of<W>(
    readings: Seq<(i64, Option<W>)>,
    max_gap: int,
    count: nat,
) -> Seq<Sample<W>>
    decreases count,
{
    if count == 0 {
        Seq::empty()
    } else {
        let before = samples_of(readings, max_gap, (count - 1) as nat);
        match sample_at(readings, max_gap, count - 1) {
            Some(sample) => before.push(sample),
            None => before,
        }
    }
}

/// Turn timestamped readings into samples that each cover the time until the next
/// reading, capped at `max_gap` seconds.
///
/// Readings whose value is `None` (`unavailable`, `unknown`, non-numeric text) terminate
/// the previous sample without starting one of their own.
pub fn samples_from_readings<W: Copy>(readings: &[(i64, Option<W>)], max_gap: i64) -> (samples: Vec<
    Sample<W>,
>)
    ensures
        samples@ == samples_of(readings@, max_gap as int, readings@.len()),
{
    let gap: i64 = if max_gap > 0 {
        max_gap
    } else {
        0
    };
    let mut samples: Vec<Sample<W>> = Vec::new();
    let length: usize = readings.len();
    let mut i: usize = 0;
    while i < length
        invariant
            i <= length,
            length == readings@.len(),
            gap == model::later(max_gap as int, 0),
            samples@ == samples_of(readings@, max_gap as int, i as nat),
        decreases length - i,
    {
        let (start, value) = readings[i];
        if let Some(watts) = value {
            let limit: i64 = if start > i64::MAX - gap {
                i64::MAX
            } else {
                start + gap
            };
            let end: i64 = if i + 1 < length && readings[i + 1].0 < limit {
                readings[i + 1].0
            } else {
                limit
            };
            assert(end == effect_end(readings@, max_gap as int, i as int));
            if end > start {
                samples.push(Sample::new(start, end, watts));
            }
        }
        i = i + 1;
        assert(i as nat - 1 == (i - 1) as nat);
    }
    samples
}

/// No sample lasts longer than the longest gap allowed, and none is empty.
pub proof fn no_sample_outlasts_the_gap<W>(
    readings: Seq<(i64, Option<W>)>,
    max_gap: int,
    count: nat,
    k: int,
)
    requires
        count <= readings.len(),
        0 <= k < samples_of(readings, max_gap, count).len(),
    ensures
        ({
            let sample = samples_of(readings, max_gap, count)[k];
            0 < sample.end_ts - sample.start_ts <= max_gap
        }),
    decreases count,
{
    let before = samples_of(readings, max_gap, (count - 1) as nat);
    if k < before.len() {
        no_sample_outlasts_the_gap(readings, max_gap, (count - 1) as nat, k);
    }
}

/// Whether readings are in order of time.
pub open spec fn in_time_order<W>(readings: Seq<(i64, Option<W>)>) -> bool {
    forall|i: int, j: int|
        0 <= i <= j < readings.len() ==> (#[trigger] readings[i]).0 <= (#[trigger] readings[j]).0
}

/// Whether samples follow one another without overlapping.
pub open spec fn disjoint<W>(samples: Seq<Sample<W>>) -> bool {
    forall|i: int, j: int|
        0 <= i < j < samples.len() ==> (#[trigger] samples[i]).end_ts <= (
        #[trigger] samples[j]).start_ts
}

/// Readings in order of time make samples that never overlap, so that no second is counted
/// twice.
pub proof fn ordered_readings_never_overlap<W>(
    readings: Seq<(i64, Option<W>)>,
    max_gap: int,
    count: nat,
)
    requires
        count <= readings.len(),
        in_time_order(readings),
    ensures
        disjoint(samples_of(readings, max_gap, count)),
        forall|k: int, next: int|
            0 <= k < samples_of(readings, max_gap, count).len() && count <= next < readings.len()
                ==> (#[trigger] samples_of(readings, max_gap, count)[k]).end_ts <= (
            #[trigger] readings[next]).0,
    decreases count,
{
    if count > 0 {
        let before = samples_of(readings, max_gap, (count - 1) as nat);
        ordered_readings_never_overlap(readings, max_gap, (count - 1) as nat);
        let now = samples_of(readings, max_gap, count);
        assert forall|k: int, next: int|
            0 <= k < now.len() && count <= next < readings.len() implies (
        #[trigger] now[k]).end_ts <= (#[trigger] readings[next]).0 by {
            if k < before.len() {
                assert(before[k].end_ts <= readings[next].0);
            } else {
                assert(readings[count as int].0 <= readings[next].0);
            }
        }
        assert forall|i: int, j: int| 0 <= i < j < now.len() implies (#[trigger] now[i]).end_ts <= (
        #[trigger] now[j]).start_ts by {
            if j < before.len() {
                assert(before[i].end_ts <= before[j].start_ts);
            } else {
                assert(before[i].end_ts <= readings[count - 1].0);
            }
        }
    }
}

/// The rows that say when they were written, as timestamped readings. `unknown`,
/// `unavailable` and friends keep their instant: they end the reading before them without
/// contributing one of their own.
pub open spec fn timed<W>(rows: Seq<(Option<i64>, Option<W>)>) -> Seq<(i64, Option<W>)>
    decreases rows.len(),
{
    if rows.len() == 0 {
        Seq::empty()
    } else {
        let before = timed(rows.drop_last());
        match rows.last().0 {
            Some(ts) => before.push((ts, rows.last().1)),
            None => before,
        }
    }
}

/// The readings behind raw rows, in the order of the rows; a row without an instant is
/// dropped.
pub fn readings_from_rows<W: Copy>(rows: &[(Option<i64>, Option<W>)]) -> (readings: Vec<
    (i64, Option<W>),
>)
    ensures
        readings@ == timed(rows@),
        readings@.len() <= rows@.len(),
{
    let mut readings: Vec<(i64, Option<W>)> = Vec::new();
    let length: usize = rows.len();
    let mut i: usize = 0;
    while i < length
        invariant
            i <= length,
            length == rows@.len(),
            readings@ == timed(rows@.take(i as int)),
            readings@.len() <= i,
        decreases length - i,
    {
        proof {
            assert(rows@.take(i + 1).drop_last() =~= rows@.take(i as int));
        }
        let (instant, watts) = rows[i];
        if let Some(ts) = instant {
            readings.push((ts, watts));
        }
        i = i + 1;
    }
    assert(rows@.take(i as int) =~= rows@);
    readings
}

/// Put readings in order of time, those of one instant in the order they came in.
pub fn sort_readings<W: Copy>(readings: &[(i64, Option<W>)]) -> (sorted: Vec<(i64, Option<W>)>)
    ensures
        in_time_order(sorted@),
        exists|arrangement: Seq<usize>| #[trigger]
            order::is_arrangement(arrangement, instants(readings@)) && sorted@
                == picked(readings@, arrangement),
{
    let mut ranks: Vec<i64> = Vec::new();
    let length: usize = readings.len();
    let mut i: usize = 0;
    while i < length
        invariant
            i <= length,
            length == readings@.len(),
            ranks@ == instants(readings@.take(i as int)),
        decreases length - i,
    {
        ranks.push(readings[i].0);
        i = i + 1;
        assert(ranks@ =~= instants(readings@.take(i as int)));
    }
    assert(readings@.take(i as int) =~= readings@);
    let arrangement: Vec<usize> = order::arrange(ranks.as_slice());
    let mut sorted: Vec<(i64, Option<W>)> = Vec::new();
    let mut i: usize = 0;
    while i < length
        invariant
            i <= length,
            length == readings@.len(),
            order::is_arrangement(arrangement@, instants(readings@)),
            sorted@ == picked(readings@, arrangement@.take(i as int)),
        decreases length - i,
    {
        assert(arrangement@[i as int] < instants(readings@).len());
        sorted.push(readings[arrangement[i]]);
        i = i + 1;
        assert(sorted@ =~= picked(readings@, arrangement@.take(i as int)));
    }
    proof {
        assert(arrangement@.take(i as int) =~= arrangement@);
        assert forall|a: int, b: int| 0 <= a <= b < sorted@.len() implies (
        #[trigger] sorted@[a]).0 <= (#[trigger] sorted@[b]).0 by {
            let ranks = instants(readings@);
            assert(ranks[arrangement@[a] as int] == sorted@[a].0);
            assert(ranks[arrangement@[b] as int] == sorted@[b].0);
        }
    }
    sorted
}

/// The instants of readings, in the order they are listed.
pub open spec fn instants<W>(readings: Seq<(i64, Option<W>)>) -> Seq<i64> {
    readings.map_values(|reading: (i64, Option<W>)| reading.0)
}

/// The readings at the listed positions, in the order of the list.
pub open spec fn picked<W>(readings: Seq<(i64, Option<W>)>, arrangement: Seq<usize>) -> Seq<
    (i64, Option<W>),
> {
    arrangement.map_values(|i: usize| readings[i as int])
}

/// What is left of samples once each is clipped to `[from, to)`.
pub open spec fn clipped_samples<W>(
    samples: Seq<Sample<W>>,
    from: Option<i64>,
    to: Option<i64>,
) -> Seq<Sample<W>>
    decreases samples.len(),
{
    if samples.len() == 0 {
        Seq::empty()
    } else {
        let before = clipped_samples(samples.drop_last(), from, to);
        let last = samples.last();
        if last.clipped_start(from) < last.clipped_end(to) {
            before.push(
                Sample {
                    start_ts: last.clipped_start(from) as i64,
                    end_ts: last.clipped_end(to) as i64,
                    watts: last.watts,
                },
            )
        } else {
            before
        }
    }
}

/// Clip every sample to `[from, to)`, dropping those of which nothing is left.
pub fn clip_all<W: Copy>(samples: &[Sample<W>], from: Option<i64>, to: Option<i64>) -> (kept: Vec<
    Sample<W>,
>)
    ensures
        kept@ == clipped_samples(samples@, from, to),
{
    let mut kept: Vec<Sample<W>> = Vec::new();
    let length: usize = samples.len();
    let mut i: usize = 0;
    while i < length
        invariant
            i <= length,
            length == samples@.len(),
            kept@ == clipped_samples(samples@.take(i as int), from, to),
        decreases length - i,
    {
        proof {
            assert(samples@.take(i + 1).drop_last() =~= samples@.take(i as int));
        }
        if let Some(sample) = samples[i].clipped(from, to) {
            kept.push(sample);
        }
        i = i + 1;
    }
    assert(samples@.take(i as int) =~= samples@);
    kept
}

/// The samples behind raw readings in any order: each in effect until the next one, no
/// longer than `max_gap` seconds, and clipped to `[from, to)`.
pub fn samples_within<W: Copy>(
    readings: &[(i64, Option<W>)],
    max_gap: i64,
    from: Option<i64>,
    to: Option<i64>,
) -> (samples: Vec<Sample<W>>)
    ensures
        exists|arrangement: Seq<usize>| #[trigger]
            order::is_arrangement(arrangement, instants(readings@)) && samples@ == clipped_samples(
                samples_of(
                    picked(readings@, arrangement),
                    max_gap as int,
                    picked(readings@, arrangement).len(),
                ),
                from,
                to,
            ),
{
    let sorted: Vec<(i64, Option<W>)> = sort_readings(readings);
    let samples: Vec<Sample<W>> = samples_from_readings(sorted.as_slice(), max_gap);
    clip_all(samples.as_slice(), from, to)
}

/// The query for every state of one entity, oldest first.
pub open spec fn states_text(layout: StatesLayout) -> Seq<char> {
    "SELECT \""@ + layout.time_column().column() + "\", state FROM states WHERE "@ + (
    if layout is MetadataId {
        "metadata_id"@
    } else {
        "entity_id"@
    }) + " = ?1 ORDER BY \""@ + layout.time_column().column() + "\""@
}

/// The query for every state of one entity, oldest first.
pub fn states_query(layout: StatesLayout) -> (sql: String)
    ensures
        sql@ == states_text(layout),
{
    let mut sql: String = String::from_str("SELECT \"");
    sql.append(layout.time().name());
    sql.append("\", state FROM states WHERE ");
    match layout {
        StatesLayout::MetadataId { .. } => sql.append("metadata_id"),
        StatesLayout::InlineEntityId { .. } => sql.append("entity_id"),
    }
    sql.append(" = ?1 ORDER BY \"");
    sql.append(layout.time().name());
    sql.append("\"");
    sql
}

/// A reading stays in effect until the next one, but for no longer than the longest gap
/// allowed: its sample starts with it, keeps what it says, ends at whichever of the two comes
/// first, and there is none exactly where there is no value or no time left.
pub proof fn readings_stay_in_effect_until_the_next<W>(
    readings: Seq<(i64, Option<W>)>,
    max_gap: int,
    i: int,
)
    requires
        0 <= i < readings.len(),
    ensures
        ({
            let start = readings[i].0;
            let last = i + 1 == readings.len();
            match sample_at(readings, max_gap, i) {
                Some(sample) => {
                    &&& readings[i].1 == Some(sample.watts)
                    &&& sample.start_ts == start
                    &&& start < sample.end_ts <= start + max_gap
                    &&& !last ==> sample.end_ts <= readings[i + 1].0
                    &&& sample.end_ts == start + max_gap || sample.end_ts == i64::MAX || (!last
                        && sample.end_ts == readings[i + 1].0)
                },
                None => readings[i].1 is None || max_gap <= 0 || start == i64::MAX || (!last
                    && readings[i + 1].0 <= start),
            }
        }),
{
}

/// How many of the first `count` readings make a sample.
pub open spec fn effective<W>(
    readings: Seq<(i64, Option<W>)>,
    max_gap: int,
    count: nat,
) -> nat {
    sums::count_where(count, |i: int| sample_at(readings, max_gap, i) is Some)
}

/// Every reading that makes a sample makes one, in the order of the readings, and no sample
/// comes from elsewhere.
pub proof fn every_effective_reading_makes_its_sample<W>(
    readings: Seq<(i64, Option<W>)>,
    max_gap: int,
    count: nat,
    i: int,
)
    requires
        0 <= i < count,
    ensures
        samples_of(readings, max_gap, count).len() == effective(readings, max_gap, count),
        sample_at(readings, max_gap, i) is Some ==> effective(readings, max_gap, i as nat)
            < effective(readings, max_gap, count) && samples_of(
            readings,
            max_gap,
            count,
        )[effective(readings, max_gap, i as nat) as int] == sample_at(readings, max_gap, i)->0,
    decreases count,
{
    let made = |i: int| sample_at(readings, max_gap, i) is Some;
    let last = count - 1;
    if last > 0 {
        every_effective_reading_makes_its_sample(
            readings,
            max_gap,
            last as nat,
            if i < last {
                i
            } else {
                0
            },
        );
    }
    assert(made(last) == (sample_at(readings, max_gap, last) is Some));
    let before = samples_of(readings, max_gap, last as nat);
    assert(before.len() == effective(readings, max_gap, last as nat));
    if i < last && sample_at(readings, max_gap, i) is Some {
        let k = effective(readings, max_gap, i as nat) as int;
        assert(samples_of(readings, max_gap, count)[k] == before[k]);
    }
}

/// How many of the first `count` rows say when they were written.
pub open spec fn timed_rows<W>(rows: Seq<(Option<i64>, Option<W>)>, count: nat) -> nat {
    sums::count_where(count, |i: int| rows[i].0 is Some)
}

/// Every row with an instant becomes a reading at that instant, in the order of the rows,
/// whether or not it carries a value; no other row does.
pub proof fn every_timed_row_becomes_a_reading<W>(rows: Seq<(Option<i64>, Option<W>)>)
    ensures
        timed(rows).len() == timed_rows(rows, rows.len()),
        forall|i: int|
            0 <= i < rows.len() && (#[trigger] rows[i]).0 is Some ==> timed(rows)[timed_rows(
                rows,
                i as nat,
            ) as int] == (rows[i].0->0, rows[i].1),
    decreases rows.len(),
{
    if rows.len() > 0 {
        let rest = rows.drop_last();
        let last = rows.len() - 1;
        assert forall|i: int| 0 <= i < rest.len() implies #[trigger] rest[i] == rows[i] by {}
        every_timed_row_becomes_a_reading(rest);
        let has = |i: int| rows[i].0 is Some;
        let had = |i: int| rest[i].0 is Some;
        sums::counts_agree(rest.len(), has, had);
        assert(has(last) == (rows[last].0 is Some));
        assert(timed_rows(rows, last as nat) == timed(rest).len());
        assert forall|i: int| 0 <= i < rows.len() && (#[trigger] rows[i]).0 is Some implies timed(
            rows,
        )[timed_rows(rows, i as nat) as int] == (rows[i].0->0, rows[i].1) by {
            if i < last {
                assert(rest[i] == rows[i]);
                sums::counts_agree(i as nat, has, had);
                sums::counts_never_fall((i + 1) as nat, rest.len(), had);
                assert(had(i));
                let k = timed_rows(rows, i as nat) as int;
                assert(timed(rows)[k] == timed(rest)[k]);
            }
        }
    }
}

/// Whether any instant of a sample lies in a window.
pub open spec fn reaches_into<W>(sample: Sample<W>, from: Option<i64>, to: Option<i64>) -> bool {
    &&& sample.start_ts < sample.end_ts
    &&& from matches Some(from) ==> from < sample.end_ts
    &&& to matches Some(to) ==> sample.start_ts < to
    &&& (from matches Some(from) && to matches Some(to)) ==> from->0 < to->0
}

/// How many of the first `count` samples reach into a window.
pub open spec fn reaching<W>(
    samples: Seq<Sample<W>>,
    from: Option<i64>,
    to: Option<i64>,
    count: nat,
) -> nat {
    sums::count_where(count, |i: int| reaches_into(samples[i], from, to))
}

/// Clipping keeps every sample that reaches into the window, in order and with what it says,
/// cut back to the window and no further, and drops all others.
pub proof fn clipping_keeps_what_reaches_into_the_window<W>(
    samples: Seq<Sample<W>>,
    from: Option<i64>,
    to: Option<i64>,
)
    ensures
        clipped_samples(samples, from, to).len() == reaching(samples, from, to, samples.len()),
        forall|i: int|
            0 <= i < samples.len() && reaches_into(#[trigger] samples[i], from, to) ==> {
                let kept = clipped_samples(samples, from, to)[reaching(
                    samples,
                    from,
                    to,
                    i as nat,
                ) as int];
                &&& kept.watts == samples[i].watts
                &&& kept.start_ts == if from is Some && from->0 > samples[i].start_ts {
                    from->0
                } else {
                    samples[i].start_ts
                }
                &&& kept.end_ts == if to is Some && to->0 < samples[i].end_ts {
                    to->0
                } else {
                    samples[i].end_ts
                }
            },
    decreases samples.len(),
{
    if samples.len() > 0 {
        let rest = samples.drop_last();
        let last = samples.len() - 1;
        assert forall|i: int| 0 <= i < rest.len() implies #[trigger] rest[i] == samples[i] by {}
        clipping_keeps_what_reaches_into_the_window(rest, from, to);
        let has = |i: int| reaches_into(samples[i], from, to);
        let had = |i: int| reaches_into(rest[i], from, to);
        sums::counts_agree(rest.len(), has, had);
        assert(has(last) == reaches_into(samples[last], from, to));
        let before = clipped_samples(rest, from, to);
        let now = clipped_samples(samples, from, to);
        assert(reaching(samples, from, to, last as nat) == before.len());
        assert forall|i: int|
            0 <= i < samples.len() && reaches_into(#[trigger] samples[i], from, to) implies {
            let kept = now[reaching(samples, from, to, i as nat) as int];
            &&& kept.watts == samples[i].watts
            &&& kept.start_ts == if from is Some && from->0 > samples[i].start_ts {
                from->0
            } else {
                samples[i].start_ts
            }
            &&& kept.end_ts == if to is Some && to->0 < samples[i].end_ts {
                to->0
            } else {
                samples[i].end_ts
            }
        } by {
            if i < last {
                assert(rest[i] == samples[i]);
                sums::counts_agree(i as nat, has, had);
                sums::counts_never_fall((i + 1) as nat, rest.len(), had);
                assert(had(i));
                let k = reaching(samples, from, to, i as nat) as int;
                assert(now[k] == before[k]);
            }
        }
    }
}

/// The query takes the states of one entity by the key that the layout has, and hands them out
/// from the oldest to the newest.
pub proof fn states_come_oldest_first(layout: StatesLayout)
    ensures
        ({
            let sql = states_text(layout);
            let start = "SELECT \""@ + layout.time_column().column()
                + "\", state FROM states WHERE "@;
            &&& sql.take(start.len() as int) == start
            &&& layout is MetadataId ==> text::matches_at(
                sql,
                "metadata_id = ?1"@,
                start.len() as int,
            )
            &&& layout is InlineEntityId ==> text::matches_at(
                sql,
                "entity_id = ?1"@,
                start.len() as int,
            )
            &&& text::has_suffix(
                sql,
                " ORDER BY \""@ + layout.time_column().column() + "\""@,
            )
        }),
{
    reveal_strlit("metadata_id");
    reveal_strlit("entity_id");
    reveal_strlit("metadata_id = ?1");
    reveal_strlit("entity_id = ?1");
    reveal_strlit(" = ?1 ORDER BY \"");
    reveal_strlit(" ORDER BY \"");
    let sql = states_text(layout);
    let column = layout.time_column().column();
    let start = "SELECT \""@ + column + "\", state FROM states WHERE "@;
    let end = " ORDER BY \""@ + column + "\""@;
    let at = start.len() as int;
    assert(sql.take(at) =~= start);
    assert(sql.skip(sql.len() - end.len()) =~= end);
    if layout is MetadataId {
        assert(sql.subrange(at, at + 16) =~= "metadata_id = ?1"@);
    } else {
        assert(sql.subrange(at, at + 14) =~= "entity_id = ?1"@);
    }
}

} // verus!
