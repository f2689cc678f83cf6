//! Turning accumulated weights into probabilities, and the hours that can be counted on.
//!
//! A probability is a share of the observed time. It is kept as the seconds it is made of,
//! out of the seconds of its column, so nothing is rounded on the way.

use vstd::prelude::*;

use crate::grid;
use crate::grid::{Grid, GridView};
use crate::model;
use crate::model::{BucketSpec, Grouping, Metric, HOURS_PER_DAY};
use crate::sums;

verus! {

/// How much evidence stands behind one column.
#[derive(Debug, Clone, Copy, PartialEq, Eq, Structural)]
pub enum ColumnStatus {
    /// The recorder never covered this hour: nothing is known about it.
    Empty,
    /// Observed, but on fewer than `--min-days` distinct days.
    Thin,
    /// Backed by at least `--min-days` distinct days.
    Sufficient,
}

impl ColumnStatus {
    /// Whether the probabilities should be drawn as colour rather than masked.
    pub fn is_sufficient(self) -> (yes: bool)
        ensures
            yes == (self is Sufficient),
    {
        matches!(self, ColumnStatus::Sufficient)
    }
}

/// One hour-of-day column of a facet.
#[derive(Debug, Clone, PartialEq)]
pub struct Column {
    pub hour: usize,
    /// Seconds per bucket that count towards its probability, following the analysis
    /// [`Metric`]; the probability is their share of `weight_seconds`.
    pub values: Vec<u128>,
    /// Observation time behind the column, in seconds.
    pub weight_seconds: u128,
    /// Number of source readings behind the column.
    pub samples: u128,
    /// Distinct local days behind the column - the evidence that actually counts.
    pub days: u32,
    /// Whether there is enough of that evidence to colour the column in.
    pub status: ColumnStatus,
}

/// One heatmap: a single month or ISO week.
#[derive(Debug, Clone, PartialEq)]
pub struct Facet {
    pub index: usize,
    pub label: String,
    pub short_label: String,
    pub columns: Vec<Column>,
    pub weight_seconds: u128,
    pub samples: u128,
    /// Distinct local days this facet saw at any hour.
    pub days: u32,
    /// Days of the calendar this facet could have covered, given the data's span.
    pub possible_days: u32,
}

/// Everything the renderer needs.
#[derive(Debug, Clone, PartialEq)]
pub struct Analysis {
    pub grouping: Grouping,
    pub buckets: BucketSpec,
    pub metric: Metric,
    /// Distinct days a column needs before it is drawn as colour.
    pub min_days: u32,
    /// Facets that carry data, in calendar order.
    pub facets: Vec<Facet>,
    /// The same 24 columns computed over every facet at once - the whole record.
    pub overall: Vec<Column>,
    pub total_weight_seconds: u128,
    pub total_samples: u128,
    /// Distinct local days observed anywhere.
    pub observed_days: u32,
}

// ---------------------------------------------------------------------------------------
// Columns
// ---------------------------------------------------------------------------------------

/// Seconds spent in a bucket or above it.
pub open spec fn seconds_at_least(weights: Seq<nat>, bucket: int) -> nat {
    sums::sum(weights.skip(bucket))
}

/// The seconds that count towards a bucket's probability: those at the bucket's lower edge
/// or above for exceedance, those inside the bucket for density; never more than the whole.
pub open spec fn share(weights: Seq<nat>, total: nat, metric: Metric, bucket: int) -> nat {
    let seconds = match metric {
        Metric::Exceedance => seconds_at_least(weights, bucket),
        Metric::Density => weights[bucket],
    };
    model::earlier(seconds as int, total as int) as nat
}

/// The evidence behind a column of so much time on so many days.
pub open spec fn status_of(total: nat, days: nat, min_days: nat) -> ColumnStatus {
    if total == 0 || days == 0 {
        ColumnStatus::Empty
    } else if days < min_days {
        ColumnStatus::Thin
    } else {
        ColumnStatus::Sufficient
    }
}

impl Column {
    /// Whether the column states the shares of these weights.
    pub open spec fn states(
        self,
        hour: int,
        weights: Seq<nat>,
        total: nat,
        samples: nat,
        days: nat,
        metric: Metric,
        min_days: nat,
    ) -> bool {
        &&& self.hour == hour
        &&& grid::numbers(self.values@) == Seq::new(
            weights.len(),
            |bucket: int| share(weights, total, metric, bucket),
        )
        &&& self.weight_seconds == total
        &&& self.samples == samples
        &&& self.days == days
        &&& self.status == status_of(total, days, min_days)
    }

    /// Whether the column states what a grid holds for an hour of day of a facet.
    pub open spec fn states_facet(
        self,
        grid: GridView,
        facet: int,
        hour: int,
        metric: Metric,
        min_days: nat,
    ) -> bool {
        let c = grid::column_of(facet, hour);
        self.states(
            hour,
            grid.weights[c],
            grid.column_total(c),
            grid.samples[c],
            grid.days_of_column(c),
            metric,
            min_days,
        )
    }

    /// Whether the column states what a grid holds for an hour of day over every facet.
    pub open spec fn states_pooled(
        self,
        grid: GridView,
        hour: int,
        metric: Metric,
        min_days: nat,
    ) -> bool {
        self.states(
            hour,
            grid.pooled(hour),
            grid.pooled_total(hour),
            grid.pooled_samples(hour),
            grid.days_of_hour(hour),
            metric,
            min_days,
        )
    }
}

/// Turn one column of accumulated seconds into probabilities.
///
/// Taking the weights rather than a grid position lets the pooled "whole record" column
/// go through exactly the same arithmetic as a single facet's.
pub fn column_from_weights(
    hour: usize,
    weights: &[u128],
    total: u128,
    samples: u128,
    days: u32,
    metric: Metric,
    min_days: u32,
) -> (column: Column)
    requires
        sums::sum(grid::numbers(weights@)) <= u128::MAX,
    ensures
        column.states(
            hour as int,
            grid::numbers(weights@),
            total as nat,
            samples as nat,
            days as nat,
            metric,
            min_days as nat,
        ),
{
    let ghost numbers = grid::numbers(weights@);
    let values: Vec<u128> = match metric {
        Metric::Exceedance => exceedance_shares(weights, total),
        Metric::Density => density_shares(weights, total),
    };
    let status: ColumnStatus = if total == 0 || days == 0 {
        ColumnStatus::Empty
    } else if days < min_days {
        ColumnStatus::Thin
    } else {
        ColumnStatus::Sufficient
    };
    proof {
        assert(grid::numbers(values@) =~= Seq::new(
            numbers.len(),
            |bucket: int| share(numbers, total as nat, metric, bucket),
        ));
    }
    Column { hour, values, weight_seconds: total, samples, days, status }
}

/// The reverse cumulative sum along the bucket axis.
fn exceedance_shares(weights: &[u128], total: u128) -> (values: Vec<u128>)
    requires
        sums::sum(grid::numbers(weights@)) <= u128::MAX,
    ensures
        values@.len() == weights@.len(),
        forall|b: int|
            0 <= b < values@.len() ==> #[trigger] values@[b] == share(
                grid::numbers(weights@),
                total as nat,
                Metric::Exceedance,
                b,
            ),
{
    let ghost numbers = grid::numbers(weights@);
    let mut reversed: Vec<u128> = Vec::new();
    let mut running: u128 = 0;
    let mut bucket: usize = weights.len();
    proof {
        assert(numbers.skip(bucket as int) =~= Seq::empty());
    }
    while bucket > 0
        invariant
            bucket <= weights@.len(),
            numbers == grid::numbers(weights@),
            sums::sum(numbers) <= u128::MAX,
            reversed@.len() == weights@.len() - bucket,
            running == seconds_at_least(numbers, bucket as int),
            forall|k: int|
                0 <= k < reversed@.len() ==> #[trigger] reversed@[k] == share(
                    numbers,
                    total as nat,
                    Metric::Exceedance,
                    weights@.len() - 1 - k,
                ),
        decreases bucket,
    {
        proof {
            at_least_by_steps(numbers, bucket - 1);
        }
        bucket = bucket - 1;
        running = running + weights[bucket];
        reversed.push(
            if running <= total {
                running
            } else {
                total
            },
        );
    }
    let length: usize = reversed.len();
    let mut values: Vec<u128> = Vec::new();
    let mut i: usize = 0;
    while i < length
        invariant
            i <= length,
            length == reversed@.len(),
            length == weights@.len(),
            numbers == grid::numbers(weights@),
            values@.len() == i,
            forall|k: int|
                0 <= k < reversed@.len() ==> #[trigger] reversed@[k] == share(
                    numbers,
                    total as nat,
                    Metric::Exceedance,
                    weights@.len() - 1 - k,
                ),
            forall|b: int|
                0 <= b < i ==> #[trigger] values@[b] == share(
                    numbers,
                    total as nat,
                    Metric::Exceedance,
                    b,
                ),
        decreases length - i,
    {
        values.push(reversed[length - 1 - i]);
        i = i + 1;
    }
    values
}

/// The share of the column that landed in each bucket.
fn density_shares(weights: &[u128], total: u128) -> (values: Vec<u128>)
    ensures
        values@.len() == weights@.len(),
        forall|b: int|
            0 <= b < values@.len() ==> #[trigger] values@[b] == share(
                grid::numbers(weights@),
                total as nat,
                Metric::Density,
                b,
            ),
{
    let mut values: Vec<u128> = Vec::new();
    let mut bucket: usize = 0;
    while bucket < weights.len()
        invariant
            bucket <= weights@.len(),
            values@.len() == bucket,
            forall|b: int|
                0 <= b < bucket ==> #[trigger] values@[b] == share(
                    grid::numbers(weights@),
                    total as nat,
                    Metric::Density,
                    b,
                ),
        decreases weights@.len() - bucket,
    {
        let weight: u128 = weights[bucket];
        values.push(
            if weight <= total {
                weight
            } else {
                total
            },
        );
        bucket = bucket + 1;
    }
    values
}

/// Each bucket adds its own seconds to those above it, and none exceeds the whole.
proof fn at_least_by_steps(weights: Seq<nat>, bucket: int)
    requires
        0 <= bucket < weights.len(),
    ensures
        seconds_at_least(weights, bucket) == weights[bucket] + seconds_at_least(
            weights,
            bucket + 1,
        ),
        seconds_at_least(weights, bucket) <= sums::sum(weights),
{
    let one = seq![weights[bucket]];
    assert(weights.skip(bucket) =~= one + weights.skip(bucket + 1));
    sums::sum_of_concatenation(one, weights.skip(bucket + 1));
    assert(sums::sum(one.drop_last()) == 0);
    assert(sums::sum(one) == weights[bucket]);
    assert(weights =~= weights.take(bucket) + weights.skip(bucket));
    sums::sum_of_concatenation(weights.take(bucket), weights.skip(bucket));
}

/// At least 0 W is certain: the exceedance of the lowest bucket is the whole column.
pub proof fn at_least_nothing_is_certain(weights: Seq<nat>)
    requires
        weights.len() > 0,
    ensures
        share(weights, sums::sum(weights), Metric::Exceedance, 0) == sums::sum(weights),
{
    assert(weights.skip(0) =~= weights);
}

/// Exceedance never rises with the power asked for.
pub proof fn exceedance_never_rises(weights: Seq<nat>, total: nat, lower: int, higher: int)
    requires
        0 <= lower <= higher < weights.len(),
    ensures
        share(weights, total, Metric::Exceedance, lower) >= share(
            weights,
            total,
            Metric::Exceedance,
            higher,
        ),
    decreases higher - lower,
{
    if lower < higher {
        at_least_by_steps(weights, lower);
        exceedance_never_rises(weights, total, lower + 1, higher);
    }
}

/// The densities of a column add up to the whole column.
pub proof fn densities_sum_to_the_whole(weights: Seq<nat>)
    ensures
        sums::sum(
            Seq::new(
                weights.len(),
                |bucket: int| share(weights, sums::sum(weights), Metric::Density, bucket),
            ),
        ) == sums::sum(weights),
{
    let shares = Seq::new(
        weights.len(),
        |bucket: int| share(weights, sums::sum(weights), Metric::Density, bucket),
    );
    assert forall|b: int| 0 <= b < weights.len() implies shares[b] == weights[b] by {
        sums::sum_bounds(weights, b);
    }
    assert(shares =~= weights);
}

// ---------------------------------------------------------------------------------------
// The whole analysis
// ---------------------------------------------------------------------------------------

impl Facet {
    /// Whether the facet states what a grid holds for it.
    pub open spec fn states(
        self,
        grid: GridView,
        metric: Metric,
        min_days: nat,
        possible_days: Seq<u32>,
    ) -> bool {
        let index = self.index as int;
        &&& index < grid.grouping.facets()
        &&& self.label@ == grid.grouping.label_text(index)
        &&& self.short_label@ == grid.grouping.short_label_text(index)
        &&& self.columns@.len() == 24
        &&& forall|hour: int|
            0 <= hour < 24 ==> (#[trigger] self.columns@[hour]).states_facet(
                grid,
                index,
                hour,
                metric,
                min_days,
            )
        &&& self.weight_seconds == sums::sum(
            Seq::new(24, |hour: int| grid.column_total(grid::column_of(index, hour))),
        )
        &&& self.samples == sums::sum(
            Seq::new(24, |hour: int| grid.samples[grid::column_of(index, hour)]),
        )
        &&& self.days == grid.days_of_facet(index)
        &&& self.possible_days == if index < possible_days.len() {
            possible_days[index]
        } else {
            0
        }
    }

    /// The seconds that count towards the probability of one hour/bucket cell, out of the
    /// seconds of its column.
    pub fn value(&self, hour: usize, bucket: usize) -> (seconds: u128)
        ensures
            seconds == if hour < self.columns@.len() && bucket < self.columns@[hour as int].values@.len() {
                self.columns@[hour as int].values@[bucket as int]
            } else {
                0
            },
    {
        if hour < self.columns.len() && bucket < self.columns[hour].values.len() {
            self.columns[hour].values[bucket]
        } else {
            0
        }
    }
}

impl Analysis {
    /// Whether the analysis states what a grid holds: exactly the facets with data, in
    /// calendar order, and the whole record over all of them.
    pub open spec fn states(
        self,
        grid: GridView,
        metric: Metric,
        min_days: nat,
        possible_days: Seq<u32>,
    ) -> bool {
        &&& self.grouping == grid.grouping
        &&& self.buckets == grid.buckets
        &&& self.metric == metric
        &&& self.min_days == min_days
        &&& forall|i: int, j: int|
            0 <= i < j < self.facets@.len() ==> (#[trigger] self.facets@[i]).index < (
            #[trigger] self.facets@[j]).index
        &&& forall|i: int|
            0 <= i < self.facets@.len() ==> (#[trigger] self.facets@[i]).states(
                grid,
                metric,
                min_days,
                possible_days,
            ) && grid.facet_has_data(self.facets@[i].index as int)
        &&& forall|f: int|
            0 <= f < grid.grouping.facets() && grid.facet_has_data(f) ==> #[trigger] self.has_facet(
                f,
            )
        &&& self.overall@.len() == 24
        &&& forall|hour: int|
            0 <= hour < 24 ==> (#[trigger] self.overall@[hour]).states_pooled(
                grid,
                hour,
                metric,
                min_days,
            )
        &&& self.total_weight_seconds == grid.total()
        &&& self.total_samples == sums::sum(grid.samples)
        &&& self.observed_days == grid.days_observed()
    }

    /// Whether a facet is among those kept.
    pub open spec fn has_facet(self, index: int) -> bool {
        exists|i: int| 0 <= i < self.facets@.len() && (#[trigger] self.facets@[i]).index == index
    }

    /// The facet with that index, if it carries data.
    pub fn facet(&self, index: usize) -> (found: Option<&Facet>)
        ensures
            match found {
                Some(facet) => exists|i: int|
                    0 <= i < self.facets@.len() && #[trigger] self.facets@[i] == *facet
                        && facet.index == index && forall|j: int|
                        0 <= j < i ==> (#[trigger] self.facets@[j]).index != index,
                None => !self.has_facet(index as int),
            },
    {
        let mut i: usize = 0;
        while i < self.facets.len()
            invariant
                i <= self.facets@.len(),
                forall|j: int| 0 <= j < i ==> (#[trigger] self.facets@[j]).index != index,
            decreases self.facets@.len() - i,
        {
            if self.facets[i].index == index {
                return Some(&self.facets[i]);
            }
            i = i + 1;
        }
        None
    }
}

/// Turn accumulated weights into probabilities.
///
/// For [`Metric::Exceedance`] a cell is `P(watts >= lower edge of the bucket)`, computed
/// as a reverse cumulative sum along the bucket axis; for [`Metric::Density`] it is the
/// share of the column that landed in that bucket.
/// `possible_days` says, per facet, how many days of the calendar the data's span could
/// have covered; pass an empty slice when that is not known.
pub fn analyse(grid: &Grid, metric: Metric, min_days: u32, possible_days: &[u32]) -> (analysis:
    Analysis)
    requires
        grid.wf(),
    ensures
        analysis.states(grid@, metric, min_days as nat, possible_days@),
        metric is Density ==> summable(analysis.overall@) && forall|i: int|
            0 <= i < analysis.facets@.len() ==> summable((#[trigger] analysis.facets@[i]).columns@),
{
    let indices: Vec<usize> = grid.non_empty_facets();
    let mut facets: Vec<Facet> = Vec::new();
    let mut i: usize = 0;
    while i < indices.len()
        invariant
            grid.wf(),
            i <= indices@.len(),
            facets@.len() == i,
            forall|k: int|
                0 <= k < indices@.len() ==> #[trigger] indices@[k] < grid@.grouping.facets(),
            forall|k: int| 0 <= k < i ==> (#[trigger] facets@[k]).index == indices@[k],
            forall|k: int|
                0 <= k < i ==> (#[trigger] facets@[k]).states(
                    grid@,
                    metric,
                    min_days as nat,
                    possible_days@,
                ),
        decreases indices@.len() - i,
    {
        facets.push(analyse_facet(grid, indices[i], metric, min_days, possible_days));
        i = i + 1;
    }
    let mut overall: Vec<Column> = Vec::new();
    let mut hour: usize = 0;
    while hour < HOURS_PER_DAY
        invariant
            grid.wf(),
            hour <= 24,
            overall@.len() == hour,
            forall|h: int|
                0 <= h < hour ==> (#[trigger] overall@[h]).states_pooled(
                    grid@,
                    h,
                    metric,
                    min_days as nat,
                ),
        decreases 24 - hour,
    {
        let weights: Vec<u128> = grid.pooled_column(hour);
        proof {
            grid.pooled_weights_fit(hour as int);
        }
        overall.push(
            column_from_weights(
                hour,
                weights.as_slice(),
                grid.pooled_column_weight(hour),
                grid.pooled_column_samples(hour),
                grid.pooled_column_days(hour),
                metric,
                min_days,
            ),
        );
        hour = hour + 1;
    }
    let analysis: Analysis = Analysis {
        grouping: grid.grouping(),
        buckets: *grid.buckets(),
        metric,
        min_days,
        facets,
        overall,
        total_weight_seconds: grid.total_weight(),
        total_samples: grid.total_samples(),
        observed_days: grid.observed_days(),
    };
    proof {
        assert forall|f: int|
            0 <= f < grid@.grouping.facets() && grid@.facet_has_data(
                f,
            ) implies #[trigger] analysis.has_facet(f) by {
            assert(indices@.contains(f as usize));
            let k = choose|k: int| 0 <= k < indices@.len() && indices@[k] == f as usize;
            assert(analysis.facets@[k].index == f);
        }
        if metric is Density {
            an_analysis_is_summable(analysis, *grid, min_days as nat, possible_days@);
        }
    }
    analysis
}

/// One facet of the analysis.
fn analyse_facet(
    grid: &Grid,
    index: usize,
    metric: Metric,
    min_days: u32,
    possible_days: &[u32],
) -> (facet: Facet)
    requires
        grid.wf(),
        index < grid@.grouping.facets(),
    ensures
        facet.index == index,
        facet.states(grid@, metric, min_days as nat, possible_days@),
{
    let grouping: Grouping = grid.grouping();
    let ghost totals = Seq::new(
        24,
        |hour: int| grid@.column_total(grid::column_of(index as int, hour)),
    );
    let ghost readings = Seq::new(
        24,
        |hour: int| grid@.samples[grid::column_of(index as int, hour)],
    );
    proof {
        grid.facet_sums_fit(index as int);
    }
    let mut columns: Vec<Column> = Vec::new();
    let mut weight_seconds: u128 = 0;
    let mut samples: u128 = 0;
    let mut hour: usize = 0;
    while hour < HOURS_PER_DAY
        invariant
            grid.wf(),
            index < grid@.grouping.facets(),
            hour <= 24,
            columns@.len() == hour,
            totals == Seq::new(
                24,
                |hour: int| grid@.column_total(grid::column_of(index as int, hour)),
            ),
            readings == Seq::new(
                24,
                |hour: int| grid@.samples[grid::column_of(index as int, hour)],
            ),
            sums::sum(totals) <= u128::MAX,
            sums::sum(readings) <= u128::MAX,
            weight_seconds == sums::sum(totals.take(hour as int)),
            samples == sums::sum(readings.take(hour as int)),
            forall|h: int|
                0 <= h < hour ==> (#[trigger] columns@[h]).states_facet(
                    grid@,
                    index as int,
                    h,
                    metric,
                    min_days as nat,
                ),
        decreases 24 - hour,
    {
        let column: Column = column_probabilities(grid, index, hour, metric, min_days);
        proof {
            sums::sum_bounds(totals, hour as int);
            sums::sum_of_next(totals, hour as int);
            sums::sum_bounds(readings, hour as int);
            sums::sum_of_next(readings, hour as int);
        }
        weight_seconds = weight_seconds + column.weight_seconds;
        samples = samples + column.samples;
        columns.push(column);
        hour = hour + 1;
    }
    proof {
        assert(totals.take(24) =~= totals);
        assert(readings.take(24) =~= readings);
    }
    Facet {
        index,
        label: grouping.facet_label(index),
        short_label: grouping.facet_short_label(index),
        columns,
        weight_seconds,
        samples,
        days: grid.facet_days(index),
        possible_days: if index < possible_days.len() {
            possible_days[index]
        } else {
            0
        },
    }
}

fn column_probabilities(
    grid: &Grid,
    facet: usize,
    hour: usize,
    metric: Metric,
    min_days: u32,
) -> (column: Column)
    requires
        grid.wf(),
        facet < grid@.grouping.facets(),
        hour < 24,
    ensures
        column.states_facet(grid@, facet as int, hour as int, metric, min_days as nat),
{
    proof {
        grid.column_weights_fit(grid::column_of(facet as int, hour as int));
    }
    column_from_weights(
        hour,
        grid.column(facet, hour),
        grid.column_weight(facet, hour),
        grid.column_samples(facet, hour),
        grid.column_days(facet, hour),
        metric,
        min_days,
    )
}

// ---------------------------------------------------------------------------------------
// The hours that can be counted on
// ---------------------------------------------------------------------------------------

/// Parts in a whole, the unit of a probability that is asked for.
pub const WHOLE: u32 = 1_000_000_000;

/// Slack on a probability that is asked for, in parts of the [`WHOLE`].
pub const PROBABILITY_SLACK: u32 = 1;

/// The span of hours that can be counted on for a given amount of power.
///
/// "Counted on" is deliberately strict: at a probability of the [`WHOLE`] a single recorded
/// hour below the threshold disqualifies that hour of day for good.
#[derive(Debug, Clone, Copy, PartialEq, Eq, Structural)]
pub struct ReliableWindow {
    /// The bucket whose lower edge the answer is really about, after rounding the request
    /// up.
    pub bucket: usize,
    /// How much of the observed time had to reach it, in parts of the [`WHOLE`].
    pub probability: u32,
    /// First and last qualifying hour of day, if any hour qualifies at all.
    pub earliest: Option<usize>,
    pub latest: Option<usize>,
    /// Whether every hour between the two also qualifies.
    pub contiguous: bool,
}

impl ReliableWindow {
    /// The window as a pair of hours.
    pub open spec fn pair(self) -> Option<(usize, usize)> {
        match (self.earliest, self.latest) {
            (Some(earliest), Some(latest)) => Some((earliest, latest)),
            _ => None,
        }
    }

    /// Whether no hour of day qualified.
    pub fn is_empty(&self) -> (empty: bool)
        ensures
            empty == (self.earliest is None),
    {
        self.earliest.is_none()
    }

    /// The window as a pair, or `None` when nothing qualified.
    pub fn hours(&self) -> (pair: Option<(usize, usize)>)
        ensures
            pair == self.pair(),
    {
        match (self.earliest, self.latest) {
            (Some(earliest), Some(latest)) => Some((earliest, latest)),
            _ => None,
        }
    }

    /// Number of qualifying hours the window spans, ends included.
    pub fn span_hours(&self) -> (hours: usize)
        requires
            self.pair() matches Some((earliest, latest)) ==> earliest <= latest && latest - earliest
                < usize::MAX,
        ensures
            hours == match self.pair() {
                Some((earliest, latest)) => latest - earliest + 1,
                None => 0,
            },
    {
        match self.hours() {
            Some((earliest, latest)) => latest - earliest + 1,
            None => 0,
        }
    }
}

/// The seconds a column spent at a bucket's lower edge or above, whichever metric it holds.
///
/// Exceedance columns already carry it; density columns are summed from the bucket upwards,
/// so the window means the same thing under `--metric density`.
pub open spec fn reached(column: Column, metric: Metric, bucket: int) -> nat {
    let values = grid::numbers(column.values@);
    match metric {
        Metric::Exceedance => if bucket < values.len() {
            values[bucket]
        } else {
            0
        },
        Metric::Density => if bucket <= values.len() {
            sums::sum(values.skip(bucket))
        } else {
            0
        },
    }
}

/// Whether so many seconds out of a whole reach a probability, up to the slack.
pub open spec fn reaches(seconds: nat, total: nat, probability: nat) -> bool {
    seconds * WHOLE >= total * (probability - PROBABILITY_SLACK)
}

/// Whether an hour of day can be counted on. Columns the `--min-days` rule considers too
/// thin never can: two sunny mornings are not a guarantee, and the same rule that keeps
/// them out of the heatmap has to keep them out of a claim as strong as this one.
pub open spec fn qualifies(
    column: Column,
    metric: Metric,
    bucket: int,
    probability: nat,
) -> bool {
    column.status is Sufficient && reaches(
        reached(column, metric, bucket),
        column.weight_seconds as nat,
        probability,
    )
}

/// Whether the seconds of every column can be summed.
pub open spec fn summable(columns: Seq<Column>) -> bool {
    forall|i: int|
        0 <= i < columns.len() ==> sums::sum(grid::numbers((#[trigger] columns[i]).values@))
            <= u128::MAX
}

fn exceedance(column: &Column, metric: Metric, bucket: usize) -> (seconds: u128)
    requires
        metric is Density ==> sums::sum(grid::numbers(column.values@)) <= u128::MAX,
    ensures
        seconds == reached(*column, metric, bucket as int),
{
    match metric {
        Metric::Exceedance => if bucket < column.values.len() {
            column.values[bucket]
        } else {
            0
        },
        Metric::Density => {
            if bucket > column.values.len() {
                return 0;
            }
            let ghost values = grid::numbers(column.values@);
            let ghost tail = values.skip(bucket as int);
            proof {
                assert(values =~= values.take(bucket as int) + tail);
                sums::sum_of_concatenation(values.take(bucket as int), tail);
            }
            let mut seconds: u128 = 0;
            let mut i: usize = bucket;
            while i < column.values.len()
                invariant
                    bucket <= i <= column.values@.len(),
                    values == grid::numbers(column.values@),
                    tail == values.skip(bucket as int),
                    sums::sum(tail) <= u128::MAX,
                    seconds == sums::sum(tail.take(i - bucket)),
                decreases column.values@.len() - i,
            {
                proof {
                    sums::sum_bounds(tail, i - bucket);
                    sums::sum_of_next(tail, i - bucket);
                }
                seconds = seconds + column.values[i];
                i = i + 1;
            }
            proof {
                assert(tail.take(i - bucket) =~= tail);
            }
            seconds
        },
    }
}

fn hour_qualifies(column: &Column, metric: Metric, bucket: usize, probability: u32) -> (yes: bool)
    requires
        metric is Density ==> sums::sum(grid::numbers(column.values@)) <= u128::MAX,
    ensures
        yes == qualifies(*column, metric, bucket as int, probability as nat),
{
    if !column.status.is_sufficient() {
        return false;
    }
    let seconds: u128 = exceedance(column, metric, bucket);
    let total: u128 = column.weight_seconds;
    if probability < PROBABILITY_SLACK {
        proof {
            assert(total * (probability - PROBABILITY_SLACK) <= 0) by (nonlinear_arith)
                requires
                    total >= 0,
                    probability < PROBABILITY_SLACK,
            ;
            assert(seconds * WHOLE >= 0) by (nonlinear_arith)
                requires
                    seconds >= 0,
                    WHOLE >= 0,
            ;
        }
        return true;
    }
    let (high, low) = wide_product(seconds, WHOLE);
    let (asked_high, asked_low) = wide_product(total, probability - PROBABILITY_SLACK);
    high > asked_high || (high == asked_high && low >= asked_low)
}

/// A product that may need more than 128 bits: how often it holds 2 to the 64, and the rest.
fn wide_product(number: u128, factor: u32) -> (product: (u128, u128))
    ensures
        product.0 * 0x1_0000_0000_0000_0000 + product.1 == number * factor,
        product.1 < 0x1_0000_0000_0000_0000,
{
    let base: u128 = 0x1_0000_0000_0000_0000;
    let (upper, lower): (u128, u128) = (number / base, number % base);
    let wide: u128 = factor as u128;
    assert(upper * wide <= 0xffff_ffff_ffff_ffff * 0xffff_ffff && lower * wide
        <= 0xffff_ffff_ffff_ffff * 0xffff_ffff) by (nonlinear_arith)
        requires
            0 <= upper <= 0xffff_ffff_ffff_ffff,
            0 <= lower <= 0xffff_ffff_ffff_ffff,
            0 <= wide <= 0xffff_ffff,
    ;
    let small: u128 = lower * wide;
    let product: (u128, u128) = (upper * wide + small / base, small % base);
    proof {
        assert(number == upper * base + lower);
        assert(small == (small / base) * base + small % base);
        assert((upper * wide + small / base) * base + small % base == number * wide)
            by (nonlinear_arith)
            requires
                number == upper * base + lower,
                small == lower * wide,
                small == (small / base) * base + small % base,
        ;
    }
    product
}

/// Find the earliest and latest hour of day that spends at least `probability` of its
/// observed time `steps` steps up the watt axis or higher, a partial step rounded up.
pub fn reliable_window(
    columns: &[Column],
    buckets: &BucketSpec,
    metric: Metric,
    steps: u64,
    probability: u32,
) -> (window: ReliableWindow)
    requires
        buckets.wf(),
        metric is Density ==> summable(columns@),
    ensures
        window.bucket == buckets.bucket(steps as int),
        window.probability == probability,
        window.is_window_over(columns@, metric),
{
    let bucket: usize = buckets.bucket_at_least(steps);
    let mut earliest: Option<usize> = None;
    let mut latest: Option<usize> = None;
    let mut contiguous: bool = true;
    // A hole is an hour that falls short after some hour qualified; it counts once another
    // hour qualifies beyond it.
    let mut hole: bool = false;
    let mut i: usize = 0;
    while i < columns.len()
        invariant
            i <= columns@.len(),
            metric is Density ==> summable(columns@),
            (ReliableWindow { bucket, probability, earliest, latest, contiguous }).is_window_over(
                columns@.take(i as int),
                metric,
            ),
            earliest is None <==> latest is None,
            latest matches Some(last) ==> last < i && hole == exists|k: int|
                last < k < i && !qualifies(
                    #[trigger] columns@[k],
                    metric,
                    bucket as int,
                    probability as nat,
                ),
        decreases columns@.len() - i,
    {
        let ghost before = ReliableWindow { bucket, probability, earliest, latest, contiguous };
        let ghost so_far = columns@.take(i as int);
        proof {
            assert forall|k: int| 0 <= k < i implies #[trigger] columns@[k] == so_far[k] by {}
        }
        if hour_qualifies(&columns[i], metric, bucket, probability) {
            match earliest {
                None => {
                    earliest = Some(i);
                },
                Some(_) => {
                    if hole {
                        contiguous = false;
                    }
                },
            }
            latest = Some(i);
            hole = false;
        } else {
            hole = true;
        }
        proof {
            let now = columns@.take(i + 1);
            assert forall|k: int| 0 <= k < i implies #[trigger] now[k] == so_far[k] by {}
            assert(now[i as int] == columns@[i as int]);
            let after = ReliableWindow { bucket, probability, earliest, latest, contiguous };
            assert forall|h: int| 0 <= h < i implies #[trigger] after.holds_at(now, h, metric)
                == before.holds_at(so_far, h, metric) && after.holds_at(now, h, metric)
                == qualifies(columns@[h], metric, bucket as int, probability as nat) by {
                assert(now[h] == so_far[h]);
                assert(columns@[h] == so_far[h]);
            }
            assert(after.holds_at(now, i as int, metric) == qualifies(
                columns@[i as int],
                metric,
                bucket as int,
                probability as nat,
            ));
            if let Some(last) = before.latest {
                let first = before.earliest->0;
                assert(before.holds_at(so_far, last as int, metric));
                assert(after.holds_at(now, last as int, metric));
                assert(after.holds_at(now, first as int, metric));
                if after.holds_at(now, i as int, metric) {
                    if after.contiguous {
                        assert forall|h: int| first <= h <= i implies #[trigger] after.holds_at(
                            now,
                            h,
                            metric,
                        ) by {
                            if h <= last {
                                assert(before.holds_at(so_far, h, metric));
                            }
                        }
                    } else if !before.contiguous {
                        let h = choose|h: int|
                            first <= h <= last && !#[trigger] before.holds_at(so_far, h, metric);
                        assert(!after.holds_at(now, h, metric));
                    } else {
                        let k = choose|k: int|
                            last < k < i && !qualifies(
                                #[trigger] columns@[k],
                                metric,
                                bucket as int,
                                probability as nat,
                            );
                        assert(!after.holds_at(now, k, metric));
                    }
                } else {
                    if after.contiguous {
                        assert forall|h: int| first <= h <= last implies #[trigger] after.holds_at(
                            now,
                            h,
                            metric,
                        ) by {
                            assert(before.holds_at(so_far, h, metric));
                        }
                    } else {
                        let h = choose|h: int|
                            first <= h <= last && !#[trigger] before.holds_at(so_far, h, metric);
                        assert(!after.holds_at(now, h, metric));
                    }
                }
            } else {
                assert forall|h: int| 0 <= h < i implies !#[trigger] after.holds_at(
                    now,
                    h,
                    metric,
                ) by {
                    assert(!before.holds_at(so_far, h, metric));
                }
            }
            assert(after.is_window_over(now, metric));
        }
        i = i + 1;
    }
    proof {
        assert(columns@.take(i as int) =~= columns@);
    }
    ReliableWindow { bucket, probability, earliest, latest, contiguous }
}

impl ReliableWindow {
    /// Whether an hour of day qualifies for the window's bucket and probability.
    pub open spec fn holds_at(self, columns: Seq<Column>, hour: int, metric: Metric) -> bool {
        qualifies(columns[hour], metric, self.bucket as int, self.probability as nat)
    }

    /// Whether the window runs from the first to the last hour that qualifies, and says
    /// truly whether all those between do.
    pub open spec fn is_window_over(self, columns: Seq<Column>, metric: Metric) -> bool {
        match (self.earliest, self.latest) {
            (None, None) => {
                &&& forall|h: int| 0 <= h < columns.len() ==> !#[trigger] self.holds_at(
                    columns,
                    h,
                    metric,
                )
                &&& self.contiguous
            },
            (Some(first), Some(last)) => {
                &&& first <= last < columns.len()
                &&& self.holds_at(columns, first as int, metric)
                &&& self.holds_at(columns, last as int, metric)
                &&& forall|h: int|
                    0 <= h < columns.len() && #[trigger] self.holds_at(columns, h, metric)
                        ==> first <= h <= last
                &&& self.contiguous == forall|h: int|
                    first <= h <= last ==> #[trigger] self.holds_at(columns, h, metric)
            },
            _ => false,
        }
    }
}

impl Analysis {
    /// The earliest and latest hour that reaches `steps` steps with probability
    /// `probability`, over an arbitrary set of columns.
    pub fn window(&self, columns: &[Column], steps: u64, probability: u32) -> (window:
        ReliableWindow)
        requires
            self.buckets.wf(),
            self.metric is Density ==> summable(columns@),
        ensures
            window.bucket == self.buckets.bucket(steps as int),
            window.probability == probability,
            window.is_window_over(columns@, self.metric),
    {
        reliable_window(columns, &self.buckets, self.metric, steps, probability)
    }

    /// The same window over the whole record rather than a single facet.
    pub fn overall_window(&self, steps: u64, probability: u32) -> (window: ReliableWindow)
        requires
            self.buckets.wf(),
            self.metric is Density ==> summable(self.overall@),
        ensures
            window.bucket == self.buckets.bucket(steps as int),
            window.probability == probability,
            window.is_window_over(self.overall@, self.metric),
    {
        self.window(self.overall.as_slice(), steps, probability)
    }
}

// ---------------------------------------------------------------------------------------
// What holds of every analysis
// ---------------------------------------------------------------------------------------

/// The densities of a column never add up to more than its weights do.
proof fn densities_stay_within_the_weights(weights: Seq<nat>, total: nat)
    ensures
        sums::sum(
            Seq::new(
                weights.len(),
                |bucket: int| share(weights, total, Metric::Density, bucket),
            ),
        ) <= sums::sum(weights),
{
    sums::sum_is_monotone(
        Seq::new(weights.len(), |bucket: int| share(weights, total, Metric::Density, bucket)),
        weights,
    );
}

/// The window means the same thing under either metric: what a density column reaches from
/// a bucket upwards is what the exceedance column of the same weights states for it.
pub proof fn both_metrics_reach_the_same(
    density: Column,
    exceedance: Column,
    hour: int,
    weights: Seq<nat>,
    samples: nat,
    days: nat,
    min_days: nat,
    bucket: int,
)
    requires
        density.states(
            hour,
            weights,
            sums::sum(weights),
            samples,
            days,
            Metric::Density,
            min_days,
        ),
        exceedance.states(
            hour,
            weights,
            sums::sum(weights),
            samples,
            days,
            Metric::Exceedance,
            min_days,
        ),
        0 <= bucket < weights.len(),
    ensures
        reached(density, Metric::Density, bucket) == reached(
            exceedance,
            Metric::Exceedance,
            bucket,
        ),
        forall|probability: nat|
            qualifies(density, Metric::Density, bucket, probability) == qualifies(
                exceedance,
                Metric::Exceedance,
                bucket,
                probability,
            ),
{
    let total = sums::sum(weights);
    assert forall|b: int| 0 <= b < weights.len() implies share(weights, total, Metric::Density, b)
        == weights[b] by {
        sums::sum_bounds(weights, b);
    }
    assert(grid::numbers(density.values@) =~= weights);
    at_least_by_steps(weights, bucket);
    assert(grid::numbers(exceedance.values@)[bucket] == share(
        weights,
        total,
        Metric::Exceedance,
        bucket,
    ));
}

/// A sum is zero exactly when all its parts are.
proof fn zero_sum(s: Seq<nat>)
    ensures
        sums::sum(s) == 0 <==> forall|i: int| 0 <= i < s.len() ==> s[i] == 0,
{
    if sums::sum(s) == 0 {
        assert forall|i: int| 0 <= i < s.len() implies s[i] == 0 by {
            sums::sum_bounds(s, i);
        }
    } else if forall|i: int| 0 <= i < s.len() ==> s[i] == 0 {
        sums::sum_of_zeros(s);
    }
}

/// Whether no time was spent below a bucket.
spec fn nothing_below(weights: Seq<nat>, bucket: int) -> bool {
    forall|b: int| 0 <= b < bucket ==> #[trigger] weights[b] == 0
}

/// Whether a column is certain to reach a bucket: all of its time counts towards it.
pub open spec fn certain(weights: Seq<nat>, total: nat, bucket: int) -> bool {
    share(weights, total, Metric::Exceedance, bucket) == total
}

/// A column is certain to reach a bucket exactly when it spent no time below it.
proof fn certainty_means_nothing_below(weights: Seq<nat>, bucket: int)
    requires
        0 <= bucket < weights.len(),
    ensures
        certain(weights, sums::sum(weights), bucket) == nothing_below(weights, bucket),
{
    let below = weights.take(bucket);
    assert(weights =~= below + weights.skip(bucket));
    sums::sum_of_concatenation(below, weights.skip(bucket));
    zero_sum(below);
    if nothing_below(weights, bucket) {
        assert forall|i: int| 0 <= i < below.len() implies below[i] == 0 by {
            assert(weights[i] == 0);
        }
    }
    if sums::sum(below) == 0 {
        assert forall|b: int| 0 <= b < bucket implies #[trigger] weights[b] == 0 by {
            assert(below[b] == 0);
        }
    }
}

/// Whether a facet is certain to reach a bucket at an hour of day.
pub open spec fn facet_is_certain(grid: GridView, facet: int, hour: int, bucket: int) -> bool {
    let c = grid::column_of(facet, hour);
    certain(grid.weights[c], grid.column_total(c), bucket)
}

/// The whole record is certain to reach a bucket at an hour of day exactly when every facet
/// is: a single month that falls short pulls the whole record down with it.
pub proof fn the_whole_record_is_certain_when_every_facet_is(
    grid: GridView,
    hour: int,
    bucket: int,
)
    requires
        grid.shaped(),
        0 <= hour < 24,
        0 <= bucket < grid.buckets.count(),
    ensures
        certain(grid.pooled(hour), grid.pooled_total(hour), bucket) <==> forall|facet: int|
            0 <= facet < grid.grouping.facets() ==> #[trigger] facet_is_certain(
                grid,
                facet,
                hour,
                bucket,
            ),
{
    let pooled = grid.pooled(hour);
    let facets = grid.grouping.facets();
    grid::pooling_adds_up(grid, hour);
    certainty_means_nothing_below(pooled, bucket);
    assert forall|facet: int| 0 <= facet < facets implies #[trigger] facet_is_certain(
        grid,
        facet,
        hour,
        bucket,
    ) == nothing_below(grid.weights[grid::column_of(facet, hour)], bucket) by {
        certainty_means_nothing_below(grid.weights[grid::column_of(facet, hour)], bucket);
    }
    if certain(pooled, grid.pooled_total(hour), bucket) {
        assert forall|facet: int| 0 <= facet < facets implies #[trigger] facet_is_certain(
            grid,
            facet,
            hour,
            bucket,
        ) by {
            let row = grid.weights[grid::column_of(facet, hour)];
            assert forall|b: int| 0 <= b < bucket implies #[trigger] row[b] == 0 by {
                let cells = Seq::new(facets, |f: int| grid.weights[grid::column_of(f, hour)][b]);
                assert(pooled[b] == sums::sum(cells));
                zero_sum(cells);
                assert(cells[facet] == 0);
            }
        }
    }
    if forall|facet: int|
        0 <= facet < facets ==> #[trigger] facet_is_certain(grid, facet, hour, bucket) {
        assert forall|b: int| 0 <= b < bucket implies #[trigger] pooled[b] == 0 by {
            let cells = Seq::new(facets, |f: int| grid.weights[grid::column_of(f, hour)][b]);
            assert forall|f: int| 0 <= f < cells.len() implies cells[f] == 0 by {
                assert(facet_is_certain(grid, f, hour, bucket));
                assert(grid.weights[grid::column_of(f, hour)][b] == 0);
            }
            zero_sum(cells);
        }
    }
}

/// Every column of an analysis can be summed, so a reliable window can be asked of it.
pub proof fn an_analysis_is_summable(
    analysis: Analysis,
    grid: Grid,
    min_days: nat,
    possible_days: Seq<u32>,
)
    requires
        grid.wf(),
        analysis.states(grid@, Metric::Density, min_days, possible_days),
    ensures
        summable(analysis.overall@),
        forall|i: int|
            0 <= i < analysis.facets@.len() ==> summable((#[trigger] analysis.facets@[i]).columns@),
{
    assert forall|hour: int| 0 <= hour < analysis.overall@.len() implies sums::sum(
        grid::numbers((#[trigger] analysis.overall@[hour]).values@),
    ) <= u128::MAX by {
        assert(analysis.overall@[hour].states_pooled(grid@, hour, Metric::Density, min_days));
        grid.pooled_weights_fit(hour);
        densities_stay_within_the_weights(grid@.pooled(hour), grid@.pooled_total(hour));
    }
    assert forall|i: int| 0 <= i < analysis.facets@.len() implies summable(
        (#[trigger] analysis.facets@[i]).columns@,
    ) by {
        let facet = analysis.facets@[i];
        assert(facet.states(grid@, Metric::Density, min_days, possible_days));
        assert forall|hour: int| 0 <= hour < facet.columns@.len() implies sums::sum(
            grid::numbers((#[trigger] facet.columns@[hour]).values@),
        ) <= u128::MAX by {
            let index = facet.index as int;
            let c = grid::column_of(index, hour);
            assert(facet.columns@[hour].states_facet(
                grid@,
                index,
                hour,
                Metric::Density,
                min_days,
            ));
            grid.column_weights_fit(c);
            densities_stay_within_the_weights(grid@.weights[c], grid@.column_total(c));
        }
    }
}

/// What a column says of itself follows from what was observed: it is sufficient exactly
/// when it has observation time on at least one day and on at least as many as are asked
/// for, and empty exactly when time or days are missing.
pub proof fn the_evidence_decides_the_status(
    column: Column,
    hour: int,
    weights: Seq<nat>,
    total: nat,
    samples: nat,
    days: nat,
    metric: Metric,
    min_days: nat,
)
    requires
        column.states(hour, weights, total, samples, days, metric, min_days),
    ensures
        column.hour == hour,
        column.weight_seconds == total,
        column.samples == samples,
        column.days == days,
        column.status is Sufficient <==> column.weight_seconds > 0 && column.days >= 1
            && column.days >= min_days,
        column.status is Empty <==> column.weight_seconds == 0 || column.days == 0,
        column.status is Thin <==> column.weight_seconds > 0 && 1 <= column.days < min_days,
{
}

/// A density is the time inside its bucket; an exceedance that of its bucket and of all above
/// it, so each bucket adds its own time to the one above. None is more than the whole.
pub proof fn columns_add_up_from_the_top(
    column: Column,
    hour: int,
    weights: Seq<nat>,
    total: nat,
    samples: nat,
    days: nat,
    metric: Metric,
    min_days: nat,
    bucket: int,
)
    requires
        column.states(hour, weights, total, samples, days, metric, min_days),
        0 <= bucket < weights.len(),
    ensures
        column.values@.len() == weights.len(),
        column.values@[bucket] <= total,
        metric is Density && weights[bucket] <= total ==> column.values@[bucket]
            == weights[bucket],
        metric is Exceedance && sums::sum(weights) <= total && bucket + 1 == weights.len()
            ==> column.values@[bucket] == weights[bucket],
        metric is Exceedance && sums::sum(weights) <= total && bucket + 1 < weights.len()
            ==> column.values@[bucket] == weights[bucket] + column.values@[bucket + 1],
        weights[bucket] >= total ==> column.values@[bucket] == total,
{
    let shares = Seq::new(weights.len(), |b: int| share(weights, total, metric, b));
    assert(grid::numbers(column.values@).len() == column.values@.len());
    assert(grid::numbers(column.values@)[bucket] == shares[bucket]);
    at_least_by_steps(weights, bucket);
    if bucket + 1 < weights.len() {
        assert(grid::numbers(column.values@)[bucket + 1] == shares[bucket + 1]);
        at_least_by_steps(weights, bucket + 1);
    } else {
        assert(weights.skip(bucket + 1) =~= Seq::empty());
    }
}

/// Whether the values of a column say that it can be counted on: it has its days, and the
/// time it spent at a bucket or above is at least the share asked for, up to one part in
/// [`WHOLE`].
pub open spec fn delivers(column: Column, bucket: int, probability: int) -> bool {
    &&& column.weight_seconds > 0
    &&& column.status is Sufficient
    &&& column.values@[bucket] * 1_000_000_000 >= column.weight_seconds * (probability - 1)
}

/// A window runs from the first to the last hour of day that delivers the share asked for,
/// every hour outside it falls short, and it says whether all between deliver.
pub proof fn windows_hold_the_hours_that_deliver(
    window: ReliableWindow,
    columns: Seq<Column>,
    h: int,
)
    requires
        window.is_window_over(columns, Metric::Exceedance),
        0 <= h < columns.len(),
        forall|i: int|
            0 <= i < columns.len() ==> window.bucket < (#[trigger] columns[i]).values@.len() && (
            columns[i].status is Sufficient ==> columns[i].weight_seconds > 0),
    ensures
        window.earliest is None <==> window.latest is None,
        window.earliest is None ==> !delivers(
            columns[h],
            window.bucket as int,
            window.probability as int,
        ),
        window.earliest matches Some(first) && h < first ==> !delivers(
            columns[h],
            window.bucket as int,
            window.probability as int,
        ),
        window.latest matches Some(last) && h > last ==> !delivers(
            columns[h],
            window.bucket as int,
            window.probability as int,
        ),
        (window.earliest matches Some(first) && first == h) || (window.latest matches Some(last)
            && last == h) ==> delivers(
            columns[h],
            window.bucket as int,
            window.probability as int,
        ),
        window.pair() matches Some((first, last)) && first <= h <= last && window.contiguous
            ==> delivers(columns[h], window.bucket as int, window.probability as int),
        window.earliest is Some && !window.contiguous ==> exists|k: int|
            window.earliest->0 < k < window.latest->0 && !#[trigger] delivers(
                columns[k],
                window.bucket as int,
                window.probability as int,
            ),
{
    assert forall|k: int| 0 <= k < columns.len() implies #[trigger] window.holds_at(
        columns,
        k,
        Metric::Exceedance,
    ) == delivers(columns[k], window.bucket as int, window.probability as int) by {
        assert(window.bucket < columns[k].values@.len());
        assert(grid::numbers(columns[k].values@)[window.bucket as int]
            == columns[k].values@[window.bucket as int]);
    }
    assert(window.holds_at(columns, h, Metric::Exceedance) == delivers(
        columns[h],
        window.bucket as int,
        window.probability as int,
    ));
    if window.earliest is Some && !window.contiguous {
        let first = window.earliest->0;
        let last = window.latest->0;
        let k = choose|k: int|
            first <= k <= last && !#[trigger] window.holds_at(columns, k, Metric::Exceedance);
        assert(window.holds_at(columns, first as int, Metric::Exceedance));
        assert(window.holds_at(columns, last as int, Metric::Exceedance));
        assert(!delivers(columns[k], window.bucket as int, window.probability as int));
    }
}

/// Certainty is strict: where all of the time is asked for, an hour of day that fell short
/// for a single second of less than thirty years cannot be counted on.
pub proof fn one_second_short_is_not_certain(column: Column, bucket: int)
    requires
        0 <= bucket < column.values@.len(),
        column.values@[bucket] < column.weight_seconds < 1_000_000_000,
    ensures
        !qualifies(column, Metric::Exceedance, bucket, 1_000_000_000),
{
    assert(grid::numbers(column.values@)[bucket] == column.values@[bucket]);
}

/// An hour of day that was seen on too few days is never counted on, whatever it delivered.
pub proof fn thin_columns_are_never_counted_on(
    column: Column,
    hour: int,
    weights: Seq<nat>,
    total: nat,
    samples: nat,
    days: nat,
    metric: Metric,
    min_days: nat,
    bucket: int,
    probability: nat,
)
    requires
        column.states(hour, weights, total, samples, days, metric, min_days),
        days < min_days || days == 0 || total == 0,
    ensures
        !qualifies(column, metric, bucket, probability),
{
}

/// An analysis keeps the facets with data, each once, in calendar order and under its own
/// label, and no others.
pub proof fn facets_with_data_are_kept(
    analysis: Analysis,
    grid: GridView,
    metric: Metric,
    min_days: nat,
    possible_days: Seq<u32>,
    facet: int,
)
    requires
        analysis.states(grid, metric, min_days, possible_days),
        0 <= facet < grid.grouping.facets(),
    ensures
        grid.facet_has_data(facet) <==> exists|i: int|
            0 <= i < analysis.facets@.len() && (#[trigger] analysis.facets@[i]).index == facet,
        forall|i: int|
            0 <= i < analysis.facets@.len() && (#[trigger] analysis.facets@[i]).index == facet
                ==> analysis.facets@[i].label@ == grid.grouping.label_text(facet)
                && analysis.facets@[i].short_label@ == grid.grouping.short_label_text(facet)
                && analysis.facets@[i].columns@.len() == 24 && analysis.facets@[i].days
                == grid.days_of_facet(facet) && (facet < possible_days.len()
                ==> analysis.facets@[i].possible_days == possible_days[facet]) && (facet
                >= possible_days.len() ==> analysis.facets@[i].possible_days == 0),
        analysis.facets@.len() <= grid.grouping.facets(),
{
    if grid.facet_has_data(facet) {
        assert(analysis.has_facet(facet));
    }
    no_more_than_their_bound(analysis.facets@, grid.grouping.facets());
}

proof fn no_more_than_their_bound(facets: Seq<Facet>, bound: nat)
    requires
        forall|i: int, j: int|
            0 <= i < j < facets.len() ==> (#[trigger] facets[i]).index < (
            #[trigger] facets[j]).index,
        forall|i: int| 0 <= i < facets.len() ==> (#[trigger] facets[i]).index < bound,
    ensures
        facets.len() <= bound,
    decreases facets.len(),
{
    if facets.len() > 0 {
        let rest = facets.drop_last();
        let last = facets.last().index as nat;
        assert forall|i: int| 0 <= i < rest.len() implies (#[trigger] rest[i]).index < last by {
            assert(facets[i].index < facets[facets.len() - 1].index);
        }
        no_more_than_their_bound(rest, last);
    }
}

/// What is reached at a bucket is the time at it or above, whichever way the shares are told,
/// and nothing is reached beyond the axis.
pub proof fn nothing_is_reached_beyond_the_axis(column: Column, metric: Metric, bucket: int)
    requires
        bucket >= column.values@.len(),
    ensures
        reached(column, metric, bucket) == 0,
{
    let values = grid::numbers(column.values@);
    if bucket == values.len() {
        assert(values.skip(bucket) =~= Seq::empty());
    }
}

} // verus!
