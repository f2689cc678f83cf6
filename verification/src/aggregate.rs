//! Folding samples into a grid and turning weights into probabilities.

use vstd::prelude::*;
use vstd::slice::slice_subrange;

use crate::coverage;
use crate::grid;
use crate::grid::{Grid, GridView};
use crate::model;
use crate::model::{BucketSpec, DayWindow, Grouping, Metric, Sample, HOURS_PER_DAY};
use crate::order;
use crate::sums;
use crate::timeutil;
use crate::timeutil::{HourSlice, Zone};

pub use crate::analysis::{
    analyse, column_from_weights, reliable_window, Analysis, Column, ColumnStatus, Facet,
    ReliableWindow,
};

verus! {

/// Samples per work unit. Each work unit allocates one partial [`Grid`], so this trades
/// allocation overhead against parallelism; a few tens of thousands of samples per chunk
/// keeps both small.
pub const CHUNK_SIZE: usize = 32_768;

// ---------------------------------------------------------------------------------------
// Folding samples
// ---------------------------------------------------------------------------------------

/// The window of the local days that a span of time touches. The end of the span is
/// exclusive, so one that ends exactly at midnight does not reach into the next day.
pub open spec fn is_window_of(window: DayWindow, span: Option<(int, int)>, zone: Seq<char>) -> bool {
    match span {
        None => window.first_day() == 0 && window.count() == 1,
        Some((first, last)) => {
            let from = timeutil::local_time_at(zone, first).parts.day;
            let to = timeutil::local_time_at(zone, model::later(last - 1, first)).parts.day;
            window.first_day() == from && window.count() == model::later(to - from + 1, 1)
        },
    }
}

/// The span of local days the samples touch, which sizes the grid's day account.
pub fn day_window<W>(samples: &[Sample<W>], tz: &Zone) -> (window: DayWindow)
    ensures
        is_window_of(window, model::span_of(samples@), tz@),
        1 <= window.count() <= u32::MAX,
{
    match model::observed_span(samples) {
        Some((first, last)) => DayWindow::from_span(first, last - 1, tz),
        None => DayWindow::empty(),
    }
}

/// The grid with one slice of a reading added, `steps` whole steps up the watt axis.
pub open spec fn with_slice(grid: GridView, slice: HourSlice, steps: int) -> GridView {
    match grid.grouping.facet_of(slice.parts) {
        Some(facet) => grid.added(
            facet as int,
            slice.parts.hour as int,
            grid.buckets.bucket(steps),
            slice.seconds as nat,
            slice.parts.day as int,
        ),
        None => grid,
    }
}

/// The grid with every slice of a reading added.
pub open spec fn with_slices(grid: GridView, slices: Seq<HourSlice>, steps: int) -> GridView
    decreases slices.len(),
{
    if slices.len() == 0 {
        grid
    } else {
        with_slice(with_slices(grid, slices.drop_last(), steps), slices.last(), steps)
    }
}

/// The grid with one sample added. A sample that holds no reading adds nothing, and neither
/// does one without a duration.
pub open spec fn with_sample(
    grid: GridView,
    sample: Sample<Option<u64>>,
    zone: Seq<char>,
) -> GridView {
    match sample.watts {
        None => grid,
        Some(steps) => with_slices(
            grid,
            timeutil::hour_slices(zone, sample.start_ts as int, sample.end_ts as int),
            steps as int,
        ),
    }
}

/// The grid with every sample added.
pub open spec fn with_samples(
    grid: GridView,
    samples: Seq<Sample<Option<u64>>>,
    zone: Seq<char>,
) -> GridView
    decreases samples.len(),
{
    if samples.len() == 0 {
        grid
    } else {
        with_sample(with_samples(grid, samples.drop_last(), zone), samples.last(), zone)
    }
}

/// Seconds a sample adds to a grid: its duration, if it holds a reading.
pub open spec fn recorded(sample: Sample<Option<u64>>) -> int {
    if sample.watts is Some {
        sample.length()
    } else {
        0
    }
}

/// Seconds the samples add to a grid, all together.
pub open spec fn total_recorded(samples: Seq<Sample<Option<u64>>>) -> int
    decreases samples.len(),
{
    if samples.len() == 0 {
        0
    } else {
        total_recorded(samples.drop_last()) + recorded(samples.last())
    }
}

/// Whether every day that a facet was seen on is a day of that facet in the calendar, as far
/// as the calendar reaches.
pub open spec fn follows_the_calendar(grid: GridView) -> bool {
    forall|facet: int, hour: int, d: int|
        0 <= facet < grid.grouping.facets() && 0 <= hour < 24 && 0 <= d < grid.window.count()
            && timeutil::FIRST_DAY <= grid.window.first_day() + d <= timeutil::LAST_DAY
            && #[trigger] grid.seen_on(grid::column_of(facet, hour), d) ==> coverage::facet_of_day(
            grid.window.first_day() + d,
            grid.grouping,
        ) == Some(facet)
}

/// A slice is recorded on the day the calendar has it on.
proof fn a_slice_follows_the_calendar(grid: GridView, slice: HourSlice, steps: int)
    requires
        grid.shaped(),
        follows_the_calendar(grid),
        slice.parts.in_range(),
    ensures
        follows_the_calendar(with_slice(grid, slice, steps)),
{
    let after = with_slice(grid, slice, steps);
    assert forall|facet: int, hour: int, d: int|
        0 <= facet < after.grouping.facets() && 0 <= hour < 24 && 0 <= d < after.window.count()
            && timeutil::FIRST_DAY <= after.window.first_day() + d <= timeutil::LAST_DAY
            && #[trigger] after.seen_on(grid::column_of(facet, hour), d) implies coverage::facet_of_day(
        after.window.first_day() + d,
        after.grouping,
    ) == Some(facet) by {
        let c = grid::column_of(facet, hour);
        assert(0 <= c < grid.columns());
        if grid.seen_on(c, d) {
            assert(coverage::facet_of_day(grid.window.first_day() + d, grid.grouping) == Some(
                facet,
            ));
        } else {
            let found = grid.grouping.facet_of(slice.parts)->0;
            assert(c == grid::column_of(found as int, slice.parts.hour as int));
            assert(facet == found);
            assert(slice.parts.day == grid.window.first_day() + d);
        }
    }
}

/// Two grids that follow the calendar still do when they are merged.
proof fn merging_follows_the_calendar(left: GridView, right: GridView)
    requires
        left.shaped(),
        right.shaped(),
        left.comparable(right),
        follows_the_calendar(left),
        follows_the_calendar(right),
    ensures
        follows_the_calendar(left.merged(right)),
{
    let merged = left.merged(right);
    assert forall|facet: int, hour: int, d: int|
        0 <= facet < merged.grouping.facets() && 0 <= hour < 24 && 0 <= d < merged.window.count()
            && timeutil::FIRST_DAY <= merged.window.first_day() + d <= timeutil::LAST_DAY
            && #[trigger] merged.seen_on(grid::column_of(facet, hour), d) implies coverage::facet_of_day(
        merged.window.first_day() + d,
        merged.grouping,
    ) == Some(facet) by {
        let c = grid::column_of(facet, hour);
        assert(0 <= c < left.columns());
        assert(left.seen_on(c, d) || right.seen_on(c, d));
    }
}

/// Add one sample to a grid, split at local hour boundaries.
fn accumulate(grid: &mut Grid, sample: &Sample<Option<u64>>, tz: &Zone)
    requires
        old(grid).wf(),
        old(grid)@.total() + sample.length() <= u128::MAX,
    ensures
        final(grid).wf(),
        final(grid)@ == with_sample(old(grid)@, *sample, tz@),
        final(grid)@.comparable(old(grid)@),
        final(grid)@.total() == old(grid)@.total() + recorded(*sample),
        follows_the_calendar(old(grid)@) ==> follows_the_calendar(final(grid)@),
{
    let steps: u64 = match sample.watts {
        Some(steps) => steps,
        None => {
            return ;
        },
    };
    let slices: Vec<HourSlice> = timeutil::for_each_hour_slice(sample.start_ts, sample.end_ts, tz);
    let ghost before = grid@;
    proof {
        if sample.start_ts < sample.end_ts {
            timeutil::slice_durations_sum_to_the_interval_length(
                tz@,
                sample.start_ts as int,
                sample.end_ts as int,
            );
        }
        assert(slices@.skip(0) =~= slices@);
    }
    let grouping: Grouping = grid.grouping();
    let mut i: usize = 0;
    while i < slices.len()
        invariant
            i <= slices@.len(),
            grid.wf(),
            grouping == grid@.grouping,
            before.comparable(grid@),
            grid@ == with_slices(before, slices@.take(i as int), steps as int),
            follows_the_calendar(before) ==> follows_the_calendar(grid@),
            forall|k: int|
                0 <= k < slices@.len() ==> 1 <= (#[trigger] slices@[k]).seconds
                    && slices@[k].parts.in_range(),
            grid@.total() + timeutil::total_seconds(slices@.skip(i as int)) == before.total()
                + sample.length(),
            timeutil::total_seconds(slices@.skip(i as int)) >= 0,
            before.total() + sample.length() <= u128::MAX,
        decreases slices@.len() - i,
    {
        let slice: HourSlice = slices[i];
        proof {
            assert(slices@.take(i + 1).drop_last() =~= slices@.take(i as int));
            assert(slices@.skip(i as int).skip(1) =~= slices@.skip(i + 1));
            total_seconds_is_not_negative(slices@.skip(i + 1));
            grid::valid_grids_are_shaped(*grid);
            if follows_the_calendar(before) {
                a_slice_follows_the_calendar(grid@, slice, steps as int);
            }
        }
        if let Some(facet) = grouping.facet_index(&slice.parts) {
            grid.add(facet, slice.parts.hour as usize, steps, slice.seconds, slice.parts.day);
        }
        i = i + 1;
    }
    proof {
        assert(slices@.take(i as int) =~= slices@);
    }
}

proof fn total_seconds_is_not_negative(slices: Seq<HourSlice>)
    ensures
        timeutil::total_seconds(slices) >= 0,
    decreases slices.len(),
{
    if slices.len() > 0 {
        total_seconds_is_not_negative(slices.skip(1));
    }
}

/// Seconds add up over a concatenation.
proof fn recorded_time_is_additive(
    first: Seq<Sample<Option<u64>>>,
    second: Seq<Sample<Option<u64>>>,
)
    ensures
        total_recorded(first + second) == total_recorded(first) + total_recorded(second),
    decreases second.len(),
{
    if second.len() == 0 {
        assert(first + second =~= first);
    } else {
        recorded_time_is_additive(first, second.drop_last());
        assert((first + second).drop_last() =~= first + second.drop_last());
    }
}

/// Fold one chunk of samples into a grid of its own. Every second of every reading lands
/// somewhere in the grid.
pub fn fold_chunk(
    samples: &[Sample<Option<u64>>],
    grouping: Grouping,
    buckets: BucketSpec,
    days: DayWindow,
    tz: &Zone,
) -> (grid: Grid)
    requires
        buckets.wf(),
        days.count() <= u32::MAX,
    ensures
        grid.wf(),
        grid@ == with_samples(GridView::blank(grouping, buckets, days), samples@, tz@),
        grid@.comparable(GridView::blank(grouping, buckets, days)),
        grid@.total() == total_recorded(samples@),
        grid@.total() <= model::total_length(samples@),
        follows_the_calendar(grid@),
{
    let mut grid: Grid = Grid::new(grouping, buckets, days);
    let ghost blank = grid@;
    let mut i: usize = 0;
    while i < samples.len()
        invariant
            i <= samples@.len(),
            grid.wf(),
            grid@.comparable(blank),
            grid@ == with_samples(blank, samples@.take(i as int), tz@),
            follows_the_calendar(grid@),
            grid@.total() == total_recorded(samples@.take(i as int)),
            grid@.total() <= model::total_length(samples@.take(i as int)),
            decreases samples@.len() - i,
    {
        proof {
            assert(samples@.take(i + 1).drop_last() =~= samples@.take(i as int));
            model::total_length_fits(samples@.take(i + 1));
        }
        accumulate(&mut grid, &samples[i], tz);
        i = i + 1;
    }
    proof {
        assert(samples@.take(i as int) =~= samples@);
    }
    grid
}

/// Whether a grid is that of the samples: every one of them added to a blank grid whose
/// window is that of the local days they touch.
pub open spec fn is_grid_of(
    grid: GridView,
    samples: Seq<Sample<Option<u64>>>,
    grouping: Grouping,
    buckets: BucketSpec,
    zone: Seq<char>,
) -> bool {
    &&& is_window_of(grid.window, model::span_of(samples), zone)
    &&& grid == with_samples(GridView::blank(grouping, buckets, grid.window), samples, zone)
}

/// Fold every sample into a facet × hour × bucket grid of observation seconds.
///
/// Grids are additive, so disjoint chunks are folded independently and merged.
pub fn build_grid(
    samples: &[Sample<Option<u64>>],
    grouping: Grouping,
    buckets: BucketSpec,
    tz: &Zone,
) -> (grid: Grid)
    requires
        buckets.wf(),
    ensures
        grid.wf(),
        is_grid_of(grid@, samples@, grouping, buckets, tz@),
        grid@.total() == total_recorded(samples@),
        follows_the_calendar(grid@),
{
    let days: DayWindow = day_window(samples, tz);
    let length: usize = samples.len();
    let mut grid: Grid = Grid::new(grouping, buckets, days);
    let ghost blank = grid@;
    let mut from: usize = 0;
    while from < length
        invariant
            from <= length,
            length == samples@.len(),
            buckets.wf(),
            days.count() <= u32::MAX,
            blank == GridView::blank(grouping, buckets, days),
            grid.wf(),
            grid@.comparable(blank),
            grid@ == with_samples(blank, samples@.take(from as int), tz@),
            follows_the_calendar(grid@),
            grid@.total() == total_recorded(samples@.take(from as int)),
            grid@.total() <= model::total_length(samples@.take(from as int)),
            decreases length - from,
    {
        let to: usize = if length - from < CHUNK_SIZE {
            length
        } else {
            from + CHUNK_SIZE
        };
        let chunk: &[Sample<Option<u64>>] = slice_subrange(samples, from, to);
        proof {
            model::total_length_is_monotone(samples@, from as int, to as int);
            model::total_length_is_monotone(samples@, 0, to as int);
            assert(samples@.subrange(0, to as int) =~= samples@.take(to as int));
            model::total_length_fits(samples@.take(to as int));
        }
        let part: Grid = fold_chunk(chunk, grouping, buckets, days, tz);
        proof {
            folding_is_additive(
                grouping,
                buckets,
                days,
                samples@.take(from as int),
                chunk@,
                tz@,
            );
            assert(samples@.take(from as int) + chunk@ =~= samples@.take(to as int));
            recorded_time_is_additive(samples@.take(from as int), chunk@);
            grid::valid_grids_are_shaped(grid);
            grid::valid_grids_are_shaped(part);
            merging_follows_the_calendar(grid@, part@);
        }
        grid = grid.merge(part);
        from = to;
    }
    proof {
        assert(samples@.take(from as int) =~= samples@);
    }
    grid
}

/// Sequential equivalent of [`build_grid`], for tiny inputs.
pub fn build_grid_sequential(
    samples: &[Sample<Option<u64>>],
    grouping: Grouping,
    buckets: BucketSpec,
    tz: &Zone,
) -> (grid: Grid)
    requires
        buckets.wf(),
    ensures
        grid.wf(),
        is_grid_of(grid@, samples@, grouping, buckets, tz@),
        grid@.total() == total_recorded(samples@),
        follows_the_calendar(grid@),
{
    fold_chunk(samples, grouping, buckets, day_window(samples, tz), tz)
}

/// Adding slices to one of two grids and then merging is the same as merging first.
proof fn slices_commute_with_merging(
    left: GridView,
    right: GridView,
    slices: Seq<HourSlice>,
    steps: int,
)
    requires
        left.shaped(),
        right.shaped(),
        left.comparable(right),
        steps >= 0,
    ensures
        left.merged(with_slices(right, slices, steps)) == with_slices(
            left.merged(right),
            slices,
            steps,
        ),
        with_slices(right, slices, steps).shaped(),
        with_slices(right, slices, steps).comparable(right),
    decreases slices.len(),
{
    if slices.len() > 0 {
        slices_commute_with_merging(left, right, slices.drop_last(), steps);
        let earlier = with_slices(right, slices.drop_last(), steps);
        let slice = slices.last();
        if let Some(facet) = right.grouping.facet_of(slice.parts) {
            grid::adding_commutes_with_merging(
                left,
                earlier,
                facet as int,
                slice.parts.hour as int,
                right.buckets.bucket(steps),
                slice.seconds as nat,
                slice.parts.day as int,
            );
        }
    }
}

/// Adding samples to one of two grids and then merging is the same as merging first.
proof fn samples_commute_with_merging(
    left: GridView,
    right: GridView,
    samples: Seq<Sample<Option<u64>>>,
    zone: Seq<char>,
)
    requires
        left.shaped(),
        right.shaped(),
        left.comparable(right),
    ensures
        left.merged(with_samples(right, samples, zone)) == with_samples(
            left.merged(right),
            samples,
            zone,
        ),
        with_samples(right, samples, zone).shaped(),
        with_samples(right, samples, zone).comparable(right),
    decreases samples.len(),
{
    if samples.len() > 0 {
        samples_commute_with_merging(left, right, samples.drop_last(), zone);
        let earlier = with_samples(right, samples.drop_last(), zone);
        let sample = samples.last();
        if let Some(steps) = sample.watts {
            slices_commute_with_merging(
                left,
                earlier,
                timeutil::hour_slices(zone, sample.start_ts as int, sample.end_ts as int),
                steps as int,
            );
        }
    }
}

/// Folding continues where it left off.
proof fn folding_a_concatenation(
    grid: GridView,
    first: Seq<Sample<Option<u64>>>,
    second: Seq<Sample<Option<u64>>>,
    zone: Seq<char>,
)
    ensures
        with_samples(grid, first + second, zone) == with_samples(
            with_samples(grid, first, zone),
            second,
            zone,
        ),
    decreases second.len(),
{
    if second.len() == 0 {
        assert(first + second =~= first);
    } else {
        folding_a_concatenation(grid, first, second.drop_last(), zone);
        assert((first + second).drop_last() =~= first + second.drop_last());
    }
}

/// Grids are additive: the grid of all the samples is the merge of the grids of its parts,
/// so folding chunks in parallel and merging them gives what folding in sequence gives.
pub proof fn folding_is_additive(
    grouping: Grouping,
    buckets: BucketSpec,
    days: DayWindow,
    first: Seq<Sample<Option<u64>>>,
    second: Seq<Sample<Option<u64>>>,
    zone: Seq<char>,
)
    requires
        buckets.wf(),
    ensures
        ({
            let blank = GridView::blank(grouping, buckets, days);
            with_samples(blank, first + second, zone) == with_samples(blank, first, zone).merged(
                with_samples(blank, second, zone),
            )
        }),
{
    let blank = GridView::blank(grouping, buckets, days);
    folding_a_concatenation(blank, first, second, zone);
    samples_commute_with_merging(blank, blank, first, zone);
    let part = with_samples(blank, first, zone);
    samples_commute_with_merging(part, blank, second, zone);
    grid::merging_a_blank_grid_changes_nothing(part);
}

/// Samples have one grid only: what [`build_grid`] folds in chunks and what
/// [`build_grid_sequential`] folds in sequence are equal.
pub proof fn chunks_and_sequence_build_the_same_grid(
    chunked: GridView,
    sequential: GridView,
    samples: Seq<Sample<Option<u64>>>,
    grouping: Grouping,
    buckets: BucketSpec,
    zone: Seq<char>,
)
    requires
        is_grid_of(chunked, samples, grouping, buckets, zone),
        is_grid_of(sequential, samples, grouping, buckets, zone),
    ensures
        chunked == sequential,
{
    model::windows_are_told_by_their_days(chunked.window, sequential.window);
}

/// A sample without a duration or without a reading adds nothing to a grid, wherever it
/// stands among the others.
pub proof fn degenerate_samples_contribute_nothing(
    grid: GridView,
    before: Seq<Sample<Option<u64>>>,
    sample: Sample<Option<u64>>,
    after: Seq<Sample<Option<u64>>>,
    zone: Seq<char>,
)
    requires
        sample.end_ts <= sample.start_ts || sample.watts is None,
    ensures
        with_samples(grid, before.push(sample) + after, zone) == with_samples(
            grid,
            before + after,
            zone,
        ),
        total_recorded(before.push(sample) + after) == total_recorded(before + after),
{
    folding_a_concatenation(grid, before.push(sample), after, zone);
    folding_a_concatenation(grid, before, after, zone);
    recorded_time_is_additive(before.push(sample), after);
    recorded_time_is_additive(before, after);
    assert(before.push(sample).drop_last() =~= before);
}

/// A facet is never observed on more days than the calendar holds for it: the days behind
/// "11 of 30 days" are among the days that are possible.
pub proof fn no_facet_outgrows_its_calendar(grid: GridView, facet: int)
    requires
        follows_the_calendar(grid),
        0 <= facet < grid.grouping.facets(),
        timeutil::FIRST_DAY <= grid.window.first_day(),
        grid.window.first_day() + grid.window.count() - 1 <= timeutil::LAST_DAY,
    ensures
        grid.days_of_facet(facet) <= coverage::days_in_facet(
            grid.window.first_day(),
            grid.window.count(),
            grid.grouping,
            facet,
        ),
{
    let first = grid.window.first_day();
    let seen = |d: int| grid.facet_seen_on(facet, d);
    let possible = |k: int| coverage::facet_of_day(first + k, grid.grouping) == Some(facet);
    assert forall|d: int| 0 <= d < grid.window.count() && #[trigger] seen(d) implies possible(
        d,
    ) by {
        let hour = choose|hour: int|
            0 <= hour < 24 && #[trigger] grid.seen_on(grid::column_of(facet, hour), d);
        assert(grid.seen_on(grid::column_of(facet, hour), d));
    }
    sums::count_is_monotone(grid.window.count(), seen, possible);
}

// ---------------------------------------------------------------------------------------
// The top of the watt axis
// ---------------------------------------------------------------------------------------

/// Whether a sample has a say in how far the axis reaches: it holds a reading above zero,
/// ranked by an integer that orders readings as their watts do, for some time.
pub open spec fn is_ranked(sample: Sample<Option<i64>>) -> bool {
    sample.watts is Some && sample.start_ts < sample.end_ts
}

/// Seconds of readings ranked no higher than `rank`.
pub open spec fn seconds_up_to(samples: Seq<Sample<Option<i64>>>, rank: int) -> int
    decreases samples.len(),
{
    if samples.len() == 0 {
        0
    } else {
        let sample = samples.last();
        seconds_up_to(samples.drop_last(), rank) + if is_ranked(sample) && sample.watts->0 <= rank {
            sample.length()
        } else {
            0
        }
    }
}

/// Seconds of all ranked readings.
pub open spec fn ranked_seconds_of(samples: Seq<Sample<Option<i64>>>) -> int {
    seconds_up_to(samples, i64::MAX as int)
}

/// Whether some ranked reading has this rank.
pub open spec fn offers(samples: Seq<Sample<Option<i64>>>, rank: int) -> bool {
    exists|i: int|
        0 <= i < samples.len() && is_ranked(#[trigger] samples[i]) && samples[i].watts->0 == rank
}

/// The duration of a ranked pair, if its rank does not exceed a bound.
spec fn up_to(rank: int) -> spec_fn((i64, i64)) -> int {
    |pair: (i64, i64)|
        if pair.0 <= rank {
            pair.1 as int
        } else {
            0
        }
}

/// Whether some pair has this rank.
spec fn holds_rank(pairs: Seq<(i64, i64)>, rank: int) -> bool {
    exists|j: int| 0 <= j < pairs.len() && (#[trigger] pairs[j]).0 == rank
}

/// Whether pairs of rank and duration stand for the ranked readings of the samples.
spec fn stands_for(pairs: Seq<(i64, i64)>, samples: Seq<Sample<Option<i64>>>) -> bool {
    &&& forall|rank: int| #[trigger]
        order::tally(pairs, up_to(rank)) == seconds_up_to(samples, rank)
    &&& forall|rank: int| #[trigger] holds_rank(pairs, rank) == offers(samples, rank)
    &&& forall|j: int| 0 <= j < pairs.len() ==> (#[trigger] pairs[j]).1 > 0
}

/// One more sample, as one more pair or none.
proof fn stands_for_one_more(
    pairs: Seq<(i64, i64)>,
    samples: Seq<Sample<Option<i64>>>,
    more: Seq<(i64, i64)>,
)
    requires
        samples.len() > 0,
        stands_for(pairs, samples.drop_last()),
        is_ranked(samples.last()) ==> samples.last().length() <= i64::MAX && more == pairs.push(
            (samples.last().watts->0, samples.last().length() as i64),
        ),
        !is_ranked(samples.last()) ==> more == pairs,
    ensures
        stands_for(more, samples),
{
    let rest = samples.drop_last();
    let end = samples.len() - 1;
    assert forall|rank: int| #[trigger]
        order::tally(more, up_to(rank)) == seconds_up_to(samples, rank) by {
        assert(order::tally(pairs, up_to(rank)) == seconds_up_to(rest, rank));
        if is_ranked(samples.last()) {
            assert(more.drop_last() =~= pairs);
        }
    }
    assert forall|rank: int| #[trigger] holds_rank(more, rank) == offers(samples, rank) by {
        assert(holds_rank(pairs, rank) == offers(rest, rank));
        if holds_rank(more, rank) {
            let j = choose|j: int| 0 <= j < more.len() && (#[trigger] more[j]).0 == rank;
            if j < pairs.len() {
                assert(pairs[j].0 == rank);
                let i = choose|i: int|
                    0 <= i < rest.len() && is_ranked(#[trigger] rest[i]) && rest[i].watts->0
                        == rank;
                assert(samples[i] == rest[i]);
            } else {
                assert(is_ranked(samples[end]));
            }
        }
        if offers(samples, rank) {
            let i = choose|i: int|
                0 <= i < samples.len() && is_ranked(#[trigger] samples[i]) && samples[i].watts->0
                    == rank;
            if i < end {
                assert(is_ranked(rest[i]));
                let j = choose|j: int| 0 <= j < pairs.len() && (#[trigger] pairs[j]).0 == rank;
                assert(more[j].0 == rank);
            } else {
                assert(more[pairs.len() as int].0 == rank);
            }
        }
    }
}

/// Sorting the pairs does not change what they stand for.
proof fn stands_for_in_any_order(
    pairs: Seq<(i64, i64)>,
    sorted: Seq<(i64, i64)>,
    samples: Seq<Sample<Option<i64>>>,
)
    requires
        stands_for(pairs, samples),
        pairs.to_multiset() == sorted.to_multiset(),
    ensures
        stands_for(sorted, samples),
        pairs.len() == sorted.len(),
{
    order::tally_ignores_order(pairs, sorted, up_to(0));
    assert forall|rank: int| #[trigger]
        order::tally(sorted, up_to(rank)) == seconds_up_to(samples, rank) by {
        order::tally_ignores_order(pairs, sorted, up_to(rank));
        assert(order::tally(pairs, up_to(rank)) == seconds_up_to(samples, rank));
    }
    assert forall|rank: int| #[trigger] holds_rank(sorted, rank) == offers(samples, rank) by {
        assert(holds_rank(pairs, rank) == offers(samples, rank));
        if holds_rank(pairs, rank) {
            let j = choose|j: int| 0 <= j < pairs.len() && (#[trigger] pairs[j]).0 == rank;
            assert(pairs.contains(pairs[j]));
            order::same_members(pairs, sorted, pairs[j]);
            let k = choose|k: int| 0 <= k < sorted.len() && sorted[k] == pairs[j];
            assert(sorted[k].0 == rank);
        }
        if holds_rank(sorted, rank) {
            let j = choose|j: int| 0 <= j < sorted.len() && (#[trigger] sorted[j]).0 == rank;
            assert(sorted.contains(sorted[j]));
            order::same_members(pairs, sorted, sorted[j]);
            let k = choose|k: int| 0 <= k < pairs.len() && pairs[k] == sorted[j];
            assert(pairs[k].0 == rank);
        }
    }
    assert forall|j: int| 0 <= j < sorted.len() implies (#[trigger] sorted[j]).1 > 0 by {
        assert(sorted.contains(sorted[j]));
        order::same_members(pairs, sorted, sorted[j]);
        let k = choose|k: int| 0 <= k < pairs.len() && pairs[k] == sorted[j];
        assert(pairs[k].1 > 0);
    }
}

/// The ranks and durations of the samples that have a say, in the samples' order.
fn ranked_pairs(samples: &[Sample<Option<i64>>]) -> (pairs: Vec<(i64, i64)>)
    requires
        model::total_length(samples@) <= i64::MAX,
    ensures
        stands_for(pairs@, samples@),
{
    let mut pairs: Vec<(i64, i64)> = Vec::new();
    let mut i: usize = 0;
    while i < samples.len()
        invariant
            i <= samples@.len(),
            model::total_length(samples@) <= i64::MAX,
            stands_for(pairs@, samples@.take(i as int)),
        decreases samples@.len() - i,
    {
        let ghost before = pairs@;
        proof {
            model::total_length_is_monotone(samples@, i as int, i + 1);
            let one = samples@.subrange(i as int, i + 1);
            assert(one.drop_last() =~= Seq::empty());
            assert(one.last() == samples@[i as int]);
            assert(model::total_length(one.drop_last()) == 0);
            assert(samples@.take(i + 1).drop_last() =~= samples@.take(i as int));
            assert(samples@.take(i + 1).last() == samples@[i as int]);
        }
        if let Some(rank) = samples[i].watts {
            if samples[i].start_ts < samples[i].end_ts {
                pairs.push((rank, samples[i].duration()));
            }
        }
        proof {
            stands_for_one_more(before, samples@.take(i + 1), pairs@);
        }
        i = i + 1;
    }
    proof {
        assert(samples@.take(i as int) =~= samples@);
    }
    pairs
}

/// Seconds of all ranked readings, the whole that a quantile is a share of.
pub fn ranked_seconds(samples: &[Sample<Option<i64>>]) -> (seconds: u64)
    requires
        model::total_length(samples@) <= i64::MAX,
    ensures
        seconds == ranked_seconds_of(samples@),
{
    let pairs: Vec<(i64, i64)> = ranked_pairs(samples);
    let ghost all = up_to(i64::MAX as int);
    proof {
        ranked_seconds_are_bounded(samples@);
        assert(order::tally(pairs@, all) == ranked_seconds_of(samples@));
    }
    let mut seconds: u64 = 0;
    let mut i: usize = 0;
    while i < pairs.len()
        invariant
            i <= pairs@.len(),
            all == up_to(i64::MAX as int),
            seconds == order::tally(pairs@.take(i as int), all),
            order::tally(pairs@, all) <= i64::MAX,
            forall|j: int| 0 <= j < pairs@.len() ==> (#[trigger] pairs@[j]).1 > 0,
        decreases pairs@.len() - i,
    {
        proof {
            running_tally(pairs@, i as int);
        }
        seconds = seconds + pairs[i].1 as u64;
        i = i + 1;
    }
    proof {
        assert(pairs@.take(i as int) =~= pairs@);
    }
    seconds
}

proof fn ranked_seconds_are_bounded(samples: Seq<Sample<Option<i64>>>)
    ensures
        ranked_seconds_of(samples) <= model::total_length(samples),
    decreases samples.len(),
{
    if samples.len() > 0 {
        ranked_seconds_are_bounded(samples.drop_last());
    }
}

/// The tally of a prefix grows by the next pair and stays within the whole.
proof fn running_tally(pairs: Seq<(i64, i64)>, i: int)
    requires
        0 <= i < pairs.len(),
        forall|j: int| 0 <= j < pairs.len() ==> (#[trigger] pairs[j]).1 > 0,
    ensures
        order::tally(pairs.take(i + 1), up_to(i64::MAX as int)) == order::tally(
            pairs.take(i),
            up_to(i64::MAX as int),
        ) + pairs[i].1,
        order::tally(pairs.take(i + 1), up_to(i64::MAX as int)) <= order::tally(
            pairs,
            up_to(i64::MAX as int),
        ),
{
    let all = up_to(i64::MAX as int);
    assert(pairs.take(i + 1).drop_last() =~= pairs.take(i));
    assert(pairs =~= pairs.take(i + 1) + pairs.skip(i + 1));
    order::tally_of_concatenation(pairs.take(i + 1), pairs.skip(i + 1), all);
    order::tally_is_monotone(pairs.skip(i + 1), |pair: (i64, i64)| 0int, all);
    zero_tally(pairs.skip(i + 1));
}

proof fn zero_tally(pairs: Seq<(i64, i64)>)
    ensures
        order::tally(pairs, |pair: (i64, i64)| 0int) == 0,
    decreases pairs.len(),
{
    if pairs.len() > 0 {
        zero_tally(pairs.drop_last());
    }
}

/// Pick a sensible top of the watt axis: the lowest ranked reading such that readings up to
/// it were in effect for at least `target` seconds, or the highest when none is. `None`
/// without a single ranked reading.
///
/// Asking for a share of the time rather than all of it keeps a single glitchy spike from
/// stretching the axis over empty space; everything above it still shows up in the
/// open-ended top bucket.
pub fn suggest_max_watts(samples: &[Sample<Option<i64>>], target: u64) -> (cutoff: Option<i64>)
    requires
        model::total_length(samples@) <= i64::MAX,
    ensures
        match cutoff {
            None => forall|rank: int| !offers(samples@, rank),
            Some(cutoff) => {
                &&& offers(samples@, cutoff as int)
                &&& seconds_up_to(samples@, cutoff as int) >= target || forall|rank: int|
                    #[trigger] offers(samples@, rank) ==> rank <= cutoff
                &&& forall|rank: int| #[trigger]
                    offers(samples@, rank) && rank < cutoff ==> seconds_up_to(samples@, rank)
                        < target
            },
        },
{
    let mut pairs: Vec<(i64, i64)> = ranked_pairs(samples);
    if pairs.len() == 0 {
        proof {
            assert forall|rank: int| !offers(samples@, rank) by {
                assert(!holds_rank(pairs@, rank));
            }
        }
        return None;
    }
    let ghost unsorted = pairs@;
    order::sort_pairs(&mut pairs);
    let ghost all = up_to(i64::MAX as int);
    proof {
        ranked_seconds_are_bounded(samples@);
        stands_for_in_any_order(unsorted, pairs@, samples@);
        assert(order::tally(pairs@, all) == ranked_seconds_of(samples@));
    }
    let mut running: u64 = 0;
    let mut i: usize = 0;
    loop
        invariant
            i < pairs@.len(),
            all == up_to(i64::MAX as int),
            order::ascending(pairs@),
            stands_for(pairs@, samples@),
            running == order::tally(pairs@.take(i as int), all),
            i > 0 ==> running < target,
            order::tally(pairs@, all) <= i64::MAX,
        decreases pairs@.len() - i,
    {
        let ghost before = running;
        proof {
            running_tally(pairs@, i as int);
        }
        running = running + pairs[i].1 as u64;
        let cutoff: i64 = pairs[i].0;
        if running >= target || i == pairs.len() - 1 {
            proof {
                cutoff_is_tight(pairs@, samples@, i as int, before as int, target as int);
            }
            return Some(cutoff);
        }
        i = i + 1;
    }
}

/// The rank at which a scan in ascending order stops is the one asked for.
proof fn cutoff_is_tight(
    pairs: Seq<(i64, i64)>,
    samples: Seq<Sample<Option<i64>>>,
    i: int,
    before: int,
    target: int,
)
    requires
        0 <= i < pairs.len(),
        order::ascending(pairs),
        stands_for(pairs, samples),
        before == order::tally(pairs.take(i), up_to(i64::MAX as int)),
        i > 0 ==> before < target,
        before + pairs[i].1 >= target || i == pairs.len() - 1,
    ensures
        offers(samples, pairs[i].0 as int),
        seconds_up_to(samples, pairs[i].0 as int) >= target || forall|rank: int|
            #[trigger] offers(samples, rank) ==> rank <= pairs[i].0,
        forall|rank: int| #[trigger]
            offers(samples, rank) && rank < pairs[i].0 ==> seconds_up_to(samples, rank) < target,
{
    let cutoff = pairs[i].0 as int;
    assert(holds_rank(pairs, cutoff));
    running_tally(pairs, i);
    prefix_within(pairs, i + 1, cutoff);
    assert(order::tally(pairs, up_to(cutoff)) == seconds_up_to(samples, cutoff));
    assert forall|rank: int| #[trigger] offers(samples, rank) && rank < cutoff implies seconds_up_to(
        samples,
        rank,
    ) < target by {
        assert(holds_rank(pairs, rank));
        let j = choose|j: int| 0 <= j < pairs.len() && (#[trigger] pairs[j]).0 == rank;
        assert(order::pair_le(pairs[0], pairs[j]));
        assert(i > 0);
        nothing_beyond(pairs, i, rank);
        assert(order::tally(pairs, up_to(rank)) == seconds_up_to(samples, rank));
    }
    if i == pairs.len() - 1 {
        assert forall|rank: int| #[trigger] offers(samples, rank) implies rank <= cutoff by {
            assert(holds_rank(pairs, rank));
            let j = choose|j: int| 0 <= j < pairs.len() && (#[trigger] pairs[j]).0 == rank;
            assert(order::pair_le(pairs[j], pairs[i]));
        }
    }
}

/// A sorted prefix whose ranks stay within a bound counts fully towards it.
proof fn prefix_within(pairs: Seq<(i64, i64)>, n: int, rank: int)
    requires
        0 < n <= pairs.len(),
        order::ascending(pairs),
        pairs[n - 1].0 <= rank,
        forall|j: int| 0 <= j < pairs.len() ==> (#[trigger] pairs[j]).1 > 0,
    ensures
        order::tally(pairs.take(n), up_to(i64::MAX as int)) <= order::tally(pairs, up_to(rank)),
{
    assert(pairs =~= pairs.take(n) + pairs.skip(n));
    order::tally_of_concatenation(pairs.take(n), pairs.skip(n), up_to(rank));
    order::tally_is_monotone(pairs.skip(n), |pair: (i64, i64)| 0int, up_to(rank));
    zero_tally(pairs.skip(n));
    assert forall|j: int| 0 <= j < pairs.take(n).len() implies up_to(i64::MAX as int)(
        #[trigger] pairs.take(n)[j],
    ) <= up_to(rank)(pairs.take(n)[j]) by {
        assert(order::pair_le(pairs[j], pairs[n - 1]));
    }
    order::tally_is_monotone(pairs.take(n), up_to(i64::MAX as int), up_to(rank));
}

/// Where every rank from position `n` on exceeds a bound, only the prefix counts to it.
proof fn nothing_beyond(pairs: Seq<(i64, i64)>, n: int, rank: int)
    requires
        0 <= n < pairs.len(),
        order::ascending(pairs),
        rank < pairs[n].0,
        forall|j: int| 0 <= j < pairs.len() ==> (#[trigger] pairs[j]).1 > 0,
    ensures
        order::tally(pairs, up_to(rank)) <= order::tally(pairs.take(n), up_to(i64::MAX as int)),
{
    assert(pairs =~= pairs.take(n) + pairs.skip(n));
    order::tally_of_concatenation(pairs.take(n), pairs.skip(n), up_to(rank));
    assert forall|j: int| 0 <= j < pairs.skip(n).len() implies up_to(rank)(
        #[trigger] pairs.skip(n)[j],
    ) <= 0 by {
        assert(pairs.skip(n)[j] == pairs[n + j]);
        assert(order::pair_le(pairs[n], pairs[n + j]));
    }
    order::tally_is_monotone(pairs.skip(n), up_to(rank), |pair: (i64, i64)| 0int);
    zero_tally(pairs.skip(n));
    order::tally_is_monotone(pairs.take(n), up_to(rank), up_to(i64::MAX as int));
}

/// A slice of a reading is booked where the wall clock and the watt axis say: under its month
/// or its ISO week, at its hour of day, in the bucket of its step, and on its day. Nothing
/// else of the grid changes.
pub proof fn a_slice_is_booked_where_the_clock_says(
    grid: GridView,
    slice: HourSlice,
    steps: int,
    f: int,
    h: int,
)
    requires
        grid.shaped(),
        steps >= 0,
        slice.seconds > 0,
        slice.parts.hour < 24,
        1 <= slice.parts.month <= 12,
        1 <= slice.parts.iso_week <= 53,
        0 <= f < grid.grouping.facets(),
        0 <= h < 24,
    ensures
        ({
            let after = with_slice(grid, slice, steps);
            let c = f * 24 + h;
            let here = h == slice.parts.hour && f + 1 == match grid.grouping {
                Grouping::Month => slice.parts.month as int,
                Grouping::Week => slice.parts.iso_week as int,
            };
            let last = grid.buckets.count() - 1;
            &&& forall|b: int|
                0 <= b <= last ==> #[trigger] after.weights[c][b] == grid.weights[c][b] + if here
                    && (b == steps || (b == last && steps > last)) {
                    slice.seconds as nat
                } else {
                    0
                }
            &&& after.samples[c] == grid.samples[c] + if here {
                1nat
            } else {
                0nat
            }
            &&& forall|d: int|
                0 <= d < grid.window.count() ==> (#[trigger] after.seen_on(c, d) <==> grid.seen_on(
                    c,
                    d,
                ) || (here && grid.window.first_day() + d == slice.parts.day))
        }),
{
    let facet = grid.grouping.facet_of(slice.parts)->0;
    model::readings_land_in_the_bucket_of_their_step(grid.buckets, steps, steps);
    grid::an_addition_lands_in_one_cell(
        grid,
        facet as int,
        slice.parts.hour as int,
        grid.buckets.bucket(steps),
        slice.seconds as nat,
        slice.parts.day as int,
        f,
        h,
    );
}

/// A reading is booked slice by slice: in effect over an interval, it adds to a grid what the
/// first local hour of the interval takes and then what the rest of it does.
pub proof fn a_reading_is_booked_hour_by_hour(
    grid: GridView,
    start: int,
    end: int,
    steps: int,
    zone: Seq<char>,
)
    requires
        start < end,
    ensures
        ({
            let slices = timeutil::hour_slices(zone, start, end);
            with_slices(grid, slices, steps) == with_slices(
                with_slice(grid, slices[0], steps),
                timeutil::hour_slices(zone, start + slices[0].seconds, end),
                steps,
            )
        }),
{
    let slices = timeutil::hour_slices(zone, start, end);
    timeutil::slicing_goes_on_where_a_slice_ends(zone, start, end);
    slices_from_the_first(grid, slices, steps);
}

proof fn slices_from_the_first(grid: GridView, slices: Seq<HourSlice>, steps: int)
    requires
        slices.len() > 0,
    ensures
        with_slices(grid, slices, steps) == with_slices(
            with_slice(grid, slices[0], steps),
            slices.skip(1),
            steps,
        ),
    decreases slices.len(),
{
    if slices.len() == 1 {
        assert(slices.drop_last() =~= Seq::empty());
        assert(slices.skip(1) =~= Seq::empty());
        assert(with_slices(grid, slices.drop_last(), steps) == grid);
    } else {
        slices_from_the_first(grid, slices.drop_last(), steps);
        assert(slices.drop_last().skip(1) =~= slices.skip(1).drop_last());
        assert(slices.skip(1).last() == slices.last());
        assert(slices.drop_last()[0] == slices[0]);
    }
}

/// A reading counts towards its own rank and every higher one, for as long as it was in
/// effect; what has no reading or no duration counts for nothing.
pub proof fn readings_count_up_to_their_rank(
    samples: Seq<Sample<Option<i64>>>,
    sample: Sample<Option<i64>>,
    rank: int,
)
    ensures
        seconds_up_to(Seq::<Sample<Option<i64>>>::empty(), rank) == 0,
        seconds_up_to(samples.push(sample), rank) == seconds_up_to(samples, rank) + (if
        sample.watts is Some && sample.watts->0 <= rank && sample.start_ts < sample.end_ts {
            sample.end_ts - sample.start_ts
        } else {
            0
        }),
        offers(samples.push(sample), rank) <==> offers(samples, rank) || (sample.watts is Some
            && sample.watts->0 == rank && sample.start_ts < sample.end_ts),
        !offers(Seq::<Sample<Option<i64>>>::empty(), rank),
{
    let more = samples.push(sample);
    assert(more.drop_last() =~= samples);
    assert(more[samples.len() as int] == sample);
    if offers(samples, rank) {
        let i = choose|i: int|
            0 <= i < samples.len() && is_ranked(#[trigger] samples[i]) && samples[i].watts->0
                == rank;
        assert(more[i] == samples[i]);
    }
    if offers(more, rank) {
        let i = choose|i: int|
            0 <= i < more.len() && is_ranked(#[trigger] more[i]) && more[i].watts->0 == rank;
        if i < samples.len() {
            assert(samples[i] == more[i]);
        }
    }
}

/// A higher rank never counts fewer seconds.
pub proof fn higher_ranks_count_no_less(
    samples: Seq<Sample<Option<i64>>>,
    lower: int,
    higher: int,
)
    requires
        lower <= higher,
    ensures
        0 <= seconds_up_to(samples, lower) <= seconds_up_to(samples, higher),
    decreases samples.len(),
{
    if samples.len() > 0 {
        higher_ranks_count_no_less(samples.drop_last(), lower, higher);
    }
}

/// Samples are booked one after the other, each slice by slice; one without a reading or
/// without a duration changes nothing, and each adds the time it was in effect.
pub proof fn samples_are_booked_one_by_one(
    grid: GridView,
    samples: Seq<Sample<Option<u64>>>,
    sample: Sample<Option<u64>>,
    zone: Seq<char>,
)
    ensures
        with_samples(grid, Seq::<Sample<Option<u64>>>::empty(), zone) == grid,
        total_recorded(Seq::<Sample<Option<u64>>>::empty()) == 0,
        with_samples(grid, samples.push(sample), zone) == with_sample(
            with_samples(grid, samples, zone),
            sample,
            zone,
        ),
        sample.watts is None || sample.end_ts <= sample.start_ts ==> with_sample(
            grid,
            sample,
            zone,
        ) == grid,
        sample.watts matches Some(steps) ==> with_sample(grid, sample, zone) == with_slices(
            grid,
            timeutil::hour_slices(zone, sample.start_ts as int, sample.end_ts as int),
            steps as int,
        ),
        total_recorded(samples.push(sample)) == total_recorded(samples) + (if sample.watts is Some
            && sample.start_ts < sample.end_ts {
            sample.end_ts - sample.start_ts
        } else {
            0
        }),
{
    assert(samples.push(sample).drop_last() =~= samples);
    timeutil::only_what_lasts_is_sliced(zone, sample.start_ts as int, sample.end_ts as int);
}

/// The window of a history goes from the local day of its first instant to that of its last.
pub proof fn windows_go_from_the_first_to_the_last_day(
    window: DayWindow,
    first: int,
    last: int,
    zone: Seq<char>,
)
    requires
        is_window_of(window, Some((first, last)), zone),
        timeutil::FIRST_INSTANT <= first < last <= timeutil::LAST_INSTANT,
        timeutil::zone_local_time(zone, first).parts.day <= timeutil::zone_local_time(
            zone,
            last - 1,
        ).parts.day,
    ensures
        window.covers(timeutil::zone_local_time(zone, first).parts.day as int),
        window.covers(timeutil::zone_local_time(zone, last - 1).parts.day as int),
        window.first_day() == timeutil::zone_local_time(zone, first).parts.day,
        !window.covers(timeutil::zone_local_time(zone, last - 1).parts.day + 1),
{
}

/// A history without a single sample has a window of one day that nothing falls on.
pub proof fn empty_histories_have_one_day(window: DayWindow, zone: Seq<char>)
    requires
        is_window_of(window, None, zone),
    ensures
        window.covers(0),
        !window.covers(-1),
        !window.covers(1),
{
}

} // verus!
