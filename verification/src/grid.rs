//! The grid of observation time per facet, hour of day and watt bucket.

use vstd::prelude::*;

use crate::model::{BucketSpec, DayWindow, Grouping, HOURS_PER_DAY};
use crate::sums;
use crate::timeutil::DayNumber;

verus! {

/// What a grid holds: observation seconds per column and bucket, readings per column, and
/// the days each column was observed on. Column `facet * 24 + hour` is one hour of day of
/// one facet.
#[verifier::ext_equal]
pub struct GridView {
    pub grouping: Grouping,
    pub buckets: BucketSpec,
    pub window: DayWindow,
    pub weights: Seq<Seq<nat>>,
    pub samples: Seq<nat>,
    pub seen: Seq<Seq<bool>>,
}

/// The column of an hour of day in a facet.
pub open spec fn column_of(facet: int, hour: int) -> int {
    facet * 24 + hour
}

impl GridView {
    /// The number of columns.
    pub open spec fn columns(self) -> nat {
        self.grouping.facets() * 24
    }

    /// Every column has its buckets and its days.
    pub open spec fn shaped(self) -> bool {
        &&& self.buckets.wf()
        &&& self.weights.len() == self.columns()
        &&& self.samples.len() == self.columns()
        &&& self.seen.len() == self.columns()
        &&& forall|c: int|
            0 <= c < self.columns() ==> (#[trigger] self.weights[c]).len() == self.buckets.count()
        &&& forall|c: int|
            0 <= c < self.columns() ==> (#[trigger] self.seen[c]).len() == self.window.count()
    }

    /// A grid that nothing was added to.
    pub open spec fn blank(grouping: Grouping, buckets: BucketSpec, window: DayWindow) -> GridView {
        let columns = grouping.facets() * 24;
        GridView {
            grouping,
            buckets,
            window,
            weights: Seq::new(columns, |c: int| Seq::new(buckets.count(), |b: int| 0nat)),
            samples: Seq::new(columns, |c: int| 0nat),
            seen: Seq::new(columns, |c: int| Seq::new(window.count(), |d: int| false)),
        }
    }

    /// Whether two grids count the same things.
    pub open spec fn comparable(self, other: GridView) -> bool {
        &&& self.grouping == other.grouping
        &&& self.buckets == other.buckets
        &&& self.window == other.window
    }

    /// Seconds of one column, over all its buckets.
    pub open spec fn column_total(self, column: int) -> nat {
        sums::sum(self.weights[column])
    }

    /// The seconds of every column.
    pub open spec fn column_totals(self) -> Seq<nat> {
        Seq::new(self.weights.len(), |c: int| self.column_total(c))
    }

    /// Seconds of the whole grid.
    pub open spec fn total(self) -> nat {
        sums::sum(self.column_totals())
    }

    /// Whether an addition counts at all.
    pub open spec fn accepts(self, facet: int, hour: int, seconds: nat) -> bool {
        facet < self.grouping.facets() && hour < 24 && seconds > 0
    }

    /// The grid with `seconds` of observation added to one bucket of one column, on a day.
    /// A day outside the window adds time but no evidence.
    pub open spec fn added(
        self,
        facet: int,
        hour: int,
        bucket: int,
        seconds: nat,
        day: int,
    ) -> GridView {
        if !self.accepts(facet, hour, seconds) {
            self
        } else {
            let c = column_of(facet, hour);
            GridView {
                weights: self.weights.update(
                    c,
                    self.weights[c].update(bucket, self.weights[c][bucket] + seconds),
                ),
                samples: self.samples.update(c, self.samples[c] + 1),
                seen: if self.window.covers(day) {
                    self.seen.update(c, self.seen[c].update(day - self.window.first_day(), true))
                } else {
                    self.seen
                },
                ..self
            }
        }
    }

    /// The element-wise sum of two grids; a day seen by either was seen.
    pub open spec fn merged(self, other: GridView) -> GridView {
        GridView {
            weights: Seq::new(
                self.weights.len(),
                |c: int| sums::sums(self.weights[c], other.weights[c]),
            ),
            samples: sums::sums(self.samples, other.samples),
            seen: Seq::new(
                self.seen.len(),
                |c: int|
                    Seq::new(self.seen[c].len(), |d: int| self.seen[c][d] || other.seen[c][d]),
            ),
            ..self
        }
    }

    /// Whether a column was observed on the window's day `d`.
    pub open spec fn seen_on(self, column: int, d: int) -> bool {
        self.seen[column][d]
    }

    /// Whether a facet was observed at any hour of day `d`.
    pub open spec fn facet_seen_on(self, facet: int, d: int) -> bool {
        exists|hour: int| 0 <= hour < 24 && #[trigger] self.seen_on(column_of(facet, hour), d)
    }

    /// Whether an hour of day was observed on day `d`, whichever facet that day is in.
    pub open spec fn hour_seen_on(self, hour: int, d: int) -> bool {
        exists|facet: int|
            0 <= facet < self.grouping.facets() && #[trigger] self.seen_on(
                column_of(facet, hour),
                d,
            )
    }

    /// Whether anything at all was observed on day `d`.
    pub open spec fn any_seen_on(self, d: int) -> bool {
        exists|hour: int| 0 <= hour < 24 && #[trigger] self.hour_seen_on(hour, d)
    }

    /// On how many hours of day `d` anything was observed.
    pub open spec fn hours_seen_on(self, d: int) -> nat {
        sums::count_where(24, |hour: int| self.hour_seen_on(hour, d))
    }

    /// Days a column was observed on.
    pub open spec fn days_of_column(self, column: int) -> nat {
        sums::count_where(self.window.count(), |d: int| self.seen_on(column, d))
    }

    /// Days a facet was observed on, at any hour.
    pub open spec fn days_of_facet(self, facet: int) -> nat {
        sums::count_where(self.window.count(), |d: int| self.facet_seen_on(facet, d))
    }

    /// Days an hour of day was observed on, in any facet.
    pub open spec fn days_of_hour(self, hour: int) -> nat {
        sums::count_where(self.window.count(), |d: int| self.hour_seen_on(hour, d))
    }

    /// Days anything was observed on.
    pub open spec fn days_observed(self) -> nat {
        sums::count_where(self.window.count(), |d: int| self.any_seen_on(d))
    }

    /// Days observed on at least `hours` of their hours.
    pub open spec fn days_with_hours(self, hours: int) -> nat {
        sums::count_where(self.window.count(), |d: int| self.hours_seen_on(d) >= hours)
    }

    /// The bucket seconds of one hour of day, over every facet.
    pub open spec fn pooled(self, hour: int) -> Seq<nat> {
        Seq::new(self.buckets.count(), |b: int| self.pooled_bucket(hour, b))
    }

    /// The seconds of one bucket at one hour of day, over every facet.
    pub open spec fn pooled_bucket(self, hour: int, bucket: int) -> nat {
        sums::sum(
            Seq::new(
                self.grouping.facets(),
                |facet: int| self.weights[column_of(facet, hour)][bucket],
            ),
        )
    }

    /// The seconds of one hour of day, over every facet.
    pub open spec fn pooled_total(self, hour: int) -> nat {
        sums::sum(
            Seq::new(
                self.grouping.facets(),
                |facet: int| self.column_total(column_of(facet, hour)),
            ),
        )
    }

    /// The readings of one hour of day, over every facet.
    pub open spec fn pooled_samples(self, hour: int) -> nat {
        sums::sum(
            Seq::new(self.grouping.facets(), |facet: int| self.samples[column_of(facet, hour)]),
        )
    }

    /// Whether a facet carries any observation time.
    pub open spec fn facet_has_data(self, facet: int) -> bool {
        exists|hour: int|
            0 <= hour < 24 && #[trigger] self.column_total(column_of(facet, hour)) > 0
    }
}

/// Accumulated observation weight per facet, hour of day and watt bucket.
///
/// Weights are seconds: a reading contributes the number of seconds it was in effect to
/// the hour(s) it covered. Grids are additive, which is what lets disjoint chunks of
/// samples be folded independently and the results be merged.
#[derive(Debug, Clone, PartialEq)]
pub struct Grid {
    grouping: Grouping,
    buckets: BucketSpec,
    days: DayWindow,
    /// column × bucket
    weights: Vec<Vec<u128>>,
    /// per column, total weight regardless of bucket
    column_weight: Vec<u128>,
    /// per column, number of source readings that touched it
    column_samples: Vec<u128>,
    /// column × day, whether the column was observed on that day
    seen: Vec<Vec<bool>>,
}

/// The numbers of a row.
pub open spec fn numbers(row: Seq<u128>) -> Seq<nat> {
    Seq::new(row.len(), |i: int| row[i] as nat)
}

fn zero_row(len: usize) -> (row: Vec<u128>)
    ensures
        row@.len() == len,
        forall|i: int| 0 <= i < len ==> row@[i] == 0,
{
    let mut row: Vec<u128> = Vec::new();
    let mut i: usize = 0;
    while i < len
        invariant
            i <= len,
            row@.len() == i,
            forall|j: int| 0 <= j < i ==> row@[j] == 0,
        decreases len - i,
    {
        row.push(0);
        i = i + 1;
    }
    row
}

fn false_row(len: usize) -> (row: Vec<bool>)
    ensures
        row@.len() == len,
        forall|i: int| 0 <= i < len ==> row@[i] == false,
{
    let mut row: Vec<bool> = Vec::new();
    let mut i: usize = 0;
    while i < len
        invariant
            i <= len,
            row@.len() == i,
            forall|j: int| 0 <= j < i ==> row@[j] == false,
        decreases len - i,
    {
        row.push(false);
        i = i + 1;
    }
    row
}

impl View for Grid {
    type V = GridView;

    closed spec fn view(&self) -> GridView {
        GridView {
            grouping: self.grouping,
            buckets: self.buckets,
            window: self.days,
            weights: Seq::new(self.weights@.len(), |c: int| numbers(self.weights@[c]@)),
            samples: numbers(self.column_samples@),
            seen: Seq::new(self.seen@.len(), |c: int| self.seen@[c]@),
        }
    }
}

impl Grid {
    /// The invariant of a grid: the columns are complete, the kept column totals are those
    /// of the buckets, and no column counts more readings than seconds.
    pub closed spec fn wf(&self) -> bool {
        &&& self@.shaped()
        &&& self@.window.count() <= u32::MAX
        &&& self@.total() <= u128::MAX
        &&& self.column_weight@.len() == self@.columns()
        &&& forall|c: int|
            0 <= c < self@.columns() ==> #[trigger] self.column_weight@[c] == self@.column_total(c)
        &&& forall|c: int|
            0 <= c < self@.columns() ==> #[trigger] self.column_samples@[c]
                <= self.column_weight@[c]
    }

    /// A grid that nothing was added to.
    pub fn new(grouping: Grouping, buckets: BucketSpec, days: DayWindow) -> (grid: Self)
        requires
            buckets.wf(),
            days.count() <= u32::MAX,
        ensures
            grid.wf(),
            grid@ == GridView::blank(grouping, buckets, days),
            grid@.total() == 0,
    {
        let columns: usize = grouping.facet_count() * HOURS_PER_DAY;
        let mut weights: Vec<Vec<u128>> = Vec::new();
        let mut seen: Vec<Vec<bool>> = Vec::new();
        let mut column: usize = 0;
        while column < columns
            invariant
                column <= columns,
                weights@.len() == column,
                seen@.len() == column,
                forall|c: int| 0 <= c < column ==> (#[trigger] weights@[c])@.len() == buckets.count(),
                forall|c: int, b: int|
                    0 <= c < column && 0 <= b < buckets.count() ==> (#[trigger] weights@[c]@[b])
                        == 0,
                forall|c: int| 0 <= c < column ==> (#[trigger] seen@[c])@.len() == days.count(),
                forall|c: int, d: int|
                    0 <= c < column && 0 <= d < days.count() ==> (#[trigger] seen@[c]@[d]) == false,
            decreases columns - column,
        {
            weights.push(zero_row(buckets.len()));
            seen.push(false_row(days.len()));
            column = column + 1;
        }
        let grid: Grid = Grid {
            grouping,
            buckets,
            days,
            weights,
            column_weight: zero_row(columns),
            column_samples: zero_row(columns),
            seen,
        };
        proof {
            let blank = GridView::blank(grouping, buckets, days);
            assert forall|c: int| 0 <= c < columns implies grid@.weights[c] == blank.weights[c] by {
                assert(grid@.weights[c] =~= blank.weights[c]);
            }
            assert forall|c: int| 0 <= c < columns implies grid@.seen[c] == blank.seen[c] by {
                assert(grid@.seen[c] =~= blank.seen[c]);
            }
            assert(grid@ =~= blank);
            assert forall|c: int| 0 <= c < columns implies grid@.column_total(c) == 0 by {
                sums::sum_of_zeros(grid@.weights[c]);
            }
            sums::sum_of_zeros(grid@.column_totals());
        }
        grid
    }

    pub fn grouping(&self) -> (grouping: Grouping)
        ensures
            grouping == self@.grouping,
    {
        self.grouping
    }

    pub fn buckets(&self) -> (buckets: &BucketSpec)
        ensures
            *buckets == self@.buckets,
    {
        &self.buckets
    }

    /// Add `seconds` of observation time to one facet/hour column, for a reading that lies
    /// `steps` whole steps up the watt axis. Facets, hours and durations that make no sense
    /// are ignored.
    pub fn add(&mut self, facet: usize, hour: usize, steps: u64, seconds: u64, day: DayNumber)
        requires
            old(self).wf(),
            old(self)@.total() + seconds <= u128::MAX,
        ensures
            final(self).wf(),
            final(self)@ == old(self)@.added(
                facet as int,
                hour as int,
                old(self)@.buckets.bucket(steps as int),
                seconds as nat,
                day as int,
            ),
            final(self)@.total() == old(self)@.total() + if old(self)@.accepts(
                facet as int,
                hour as int,
                seconds as nat,
            ) {
                seconds as nat
            } else {
                0
            },
    {
        if facet >= self.grouping.facet_count() || hour >= HOURS_PER_DAY {
            return;
        }
        if seconds == 0 {
            return;
        }
        let ghost before = *self;
        let column: usize = facet * HOURS_PER_DAY + hour;
        let bucket: usize = self.buckets.index(steps);
        proof {
            sums::sum_bounds(before@.weights[column as int], bucket as int);
            sums::sum_bounds(before@.column_totals(), column as int);
            assert(before@.column_total(column as int) == before@.column_totals()[column as int]);
        }
        let weight: u128 = self.weights[column][bucket];
        self.weights[column][bucket] = weight + seconds as u128;
        let total: u128 = self.column_weight[column];
        self.column_weight[column] = total + seconds as u128;
        let readings: u128 = self.column_samples[column];
        self.column_samples[column] = readings + 1;
        if let Some(position) = self.days.position(day) {
            self.seen[column][position] = true;
        }
        proof {
            let after = before@.added(
                facet as int,
                hour as int,
                bucket as int,
                seconds as nat,
                day as int,
            );
            let c = column as int;
            assert(self@.weights[c] =~= after.weights[c]);
            assert(self@.weights =~= after.weights);
            assert(self@.samples =~= after.samples);
            assert(self@.seen[c] =~= after.seen[c]);
            assert(self@.seen =~= after.seen);
            assert(self@ =~= after);
            sums::sum_of_update(before@.weights[c], bucket as int, seconds as nat);
            assert(self@.column_total(c) == before@.column_total(c) + seconds);
            assert(self@.column_totals() =~= before@.column_totals().update(
                c,
                before@.column_totals()[c] + seconds as nat,
            ));
            sums::sum_of_update(before@.column_totals(), c, seconds as nat);
            assert forall|k: int| 0 <= k < self@.columns() implies #[trigger] self.column_weight@[k]
                == self@.column_total(k) by {
                if k != c {
                    assert(self@.weights[k] == before@.weights[k]);
                }
            }
        }
    }

    /// Element-wise sum, used to merge the partial grids of disjoint chunks of samples.
    pub fn merge(self, other: Grid) -> (merged: Grid)
        requires
            self.wf(),
            other.wf(),
            self@.comparable(other@),
            self@.total() + other@.total() <= u128::MAX,
        ensures
            merged.wf(),
            merged@ == self@.merged(other@),
            merged@.total() == self@.total() + other@.total(),
    {
        let columns: usize = self.grouping.facet_count() * HOURS_PER_DAY;
        let ghost target = self@.merged(other@);
        let mut weights: Vec<Vec<u128>> = Vec::new();
        let mut column_weight: Vec<u128> = Vec::new();
        let mut column_samples: Vec<u128> = Vec::new();
        let mut seen: Vec<Vec<bool>> = Vec::new();
        let mut column: usize = 0;
        while column < columns
            invariant
                column <= columns,
                columns == self@.columns(),
                columns == other@.columns(),
                self.wf(),
                other.wf(),
                self@.comparable(other@),
                self@.total() + other@.total() <= u128::MAX,
                target == self@.merged(other@),
                weights@.len() == column,
                column_weight@.len() == column,
                column_samples@.len() == column,
                seen@.len() == column,
                forall|c: int| 0 <= c < column ==> numbers((#[trigger] weights@[c])@) == target.weights[c],
                forall|c: int| 0 <= c < column ==> (#[trigger] seen@[c])@ == target.seen[c],
                forall|c: int|
                    0 <= c < column ==> #[trigger] column_weight@[c] == self.column_weight@[c]
                        + other.column_weight@[c],
                forall|c: int|
                    0 <= c < column ==> #[trigger] column_samples@[c] == self.column_samples@[c]
                        + other.column_samples@[c],
            decreases columns - column,
        {
            proof {
                let c = column as int;
                sums::sum_bounds(self@.column_totals(), c);
                sums::sum_bounds(other@.column_totals(), c);
                assert(self@.column_totals()[c] == self@.column_total(c));
                assert(other@.column_totals()[c] == other@.column_total(c));
                assert(self.column_samples@[c] <= self.column_weight@[c]);
                assert(other.column_samples@[c] <= other.column_weight@[c]);
                assert(self@.weights[c].len() == self@.buckets.count());
                assert(other@.weights[c].len() == other@.buckets.count());
                assert(self@.seen[c].len() == self@.window.count());
                assert(other@.seen[c].len() == other@.window.count());
            }
            let weight_row: Vec<u128> = merge_weights(
                self.weights[column].as_slice(),
                other.weights[column].as_slice(),
            );
            let seen_row: Vec<bool> = merge_days(
                self.seen[column].as_slice(),
                other.seen[column].as_slice(),
            );
            proof {
                let c = column as int;
                assert(numbers(weight_row@) =~= target.weights[c]);
                assert(seen_row@ =~= target.seen[c]);
            }
            weights.push(weight_row);
            seen.push(seen_row);
            column_weight.push(self.column_weight[column] + other.column_weight[column]);
            column_samples.push(self.column_samples[column] + other.column_samples[column]);
            column = column + 1;
        }
        let merged: Grid = Grid {
            grouping: self.grouping,
            buckets: self.buckets,
            days: self.days,
            weights,
            column_weight,
            column_samples,
            seen,
        };
        proof {
            assert(merged@.weights =~= target.weights);
            assert(merged@.samples =~= target.samples);
            assert(merged@.seen =~= target.seen);
            assert(merged@ =~= target);
            merged_totals(self@, other@);
            assert forall|c: int| 0 <= c < merged@.columns() implies #[trigger]
                merged.column_weight@[c] == merged@.column_total(c) by {
                assert(merged@.column_totals()[c] == merged@.column_total(c));
                assert(self@.column_totals()[c] == self@.column_total(c));
                assert(other@.column_totals()[c] == other@.column_total(c));
                assert(self.column_weight@[c] == self@.column_total(c));
                assert(other.column_weight@[c] == other@.column_total(c));
            }
            assert forall|c: int| 0 <= c < merged@.columns() implies #[trigger]
                merged.column_samples@[c] <= merged.column_weight@[c] by {
                assert(self.column_samples@[c] <= self.column_weight@[c]);
                assert(other.column_samples@[c] <= other.column_weight@[c]);
            }
        }
        merged
    }
}

/// A row's entry, or zero past its end.
pub open spec fn entry_or_zero(row: Seq<nat>, index: int) -> nat {
    if index < row.len() {
        row[index]
    } else {
        0
    }
}

impl GridView {
    /// The cell at a position counted bucket by bucket and column by column, or zero past
    /// the last one.
    pub open spec fn cell_or_zero(self, position: int) -> nat {
        let n = self.buckets.count() as int;
        if position / n < self.columns() {
            self.weights[position / n][position % n]
        } else {
            0
        }
    }
}

impl Grid {
    /// Weight accumulated in one cell, in seconds.
    pub fn cell_weight(&self, facet: usize, hour: usize, bucket: usize) -> (seconds: u128)
        requires
            self.wf(),
            column_of(facet as int, hour as int) * self@.buckets.count() + bucket <= usize::MAX,
        ensures
            seconds == self@.cell_or_zero(
                column_of(facet as int, hour as int) * self@.buckets.count() + bucket,
            ),
            facet < self@.grouping.facets() && hour < 24 && bucket < self@.buckets.count()
                ==> seconds == self@.weights[column_of(facet as int, hour as int)][bucket as int],
    {
        let n: usize = self.buckets.len();
        proof {
            let column = column_of(facet as int, hour as int);
            assert(column <= column * n) by (nonlinear_arith)
                requires
                    n >= 1,
                    column >= 0,
            ;
            assert(bucket < n ==> (column * n + bucket) / (n as int) == column && (column * n
                + bucket) % (n as int) == bucket) by (nonlinear_arith)
                requires
                    n >= 1,
                    column >= 0,
            ;
        }
        let column: usize = facet * HOURS_PER_DAY + hour;
        let position: usize = column * n + bucket;
        if position / n < self.weights.len() {
            proof {
                assert(self@.weights[position as int / n as int].len() == n);
            }
            self.weights[position / n][position % n]
        } else {
            0
        }
    }

    /// Total weight of one facet/hour column, in seconds.
    pub fn column_weight(&self, facet: usize, hour: usize) -> (seconds: u128)
        requires
            self.wf(),
            column_of(facet as int, hour as int) <= usize::MAX,
        ensures
            seconds == entry_or_zero(
                self@.column_totals(),
                column_of(facet as int, hour as int),
            ),
    {
        let column: usize = facet * HOURS_PER_DAY + hour;
        if column < self.column_weight.len() {
            proof {
                assert(self@.column_totals()[column as int] == self@.column_total(column as int));
            }
            self.column_weight[column]
        } else {
            0
        }
    }

    /// Number of readings that contributed to one facet/hour column.
    pub fn column_samples(&self, facet: usize, hour: usize) -> (readings: u128)
        requires
            self.wf(),
            column_of(facet as int, hour as int) <= usize::MAX,
        ensures
            readings == entry_or_zero(self@.samples, column_of(facet as int, hour as int)),
    {
        let column: usize = facet * HOURS_PER_DAY + hour;
        if column < self.column_samples.len() {
            self.column_samples[column]
        } else {
            0
        }
    }

    /// Distinct days one facet/hour column was observed on.
    pub fn column_days(&self, facet: usize, hour: usize) -> (days: u32)
        requires
            self.wf(),
            facet < self@.grouping.facets(),
            hour < 24,
        ensures
            days == self@.days_of_column(column_of(facet as int, hour as int)),
    {
        let column: usize = facet * HOURS_PER_DAY + hour;
        let ghost holds = |d: int| self@.seen_on(column as int, d);
        let mut days: u32 = 0;
        let mut d: usize = 0;
        while d < self.days.len()
            invariant
                self.wf(),
                column < self@.columns(),
                d <= self@.window.count(),
                holds == (|d: int| self@.seen_on(column as int, d)),
                days <= d,
                days == sums::count_where(d as nat, holds),
            decreases self@.window.count() - d,
        {
            proof {
                assert(self@.seen[column as int].len() == self@.window.count());
                assert(holds(d as int) == self@.seen_on(column as int, d as int));
            }
            if self.seen[column][d] {
                days = days + 1;
            }
            d = d + 1;
        }
        days
    }

    /// Whether an hour of day was observed on a day of the window, in any facet.
    fn hour_seen(&self, hour: usize, d: usize) -> (seen: bool)
        requires
            self.wf(),
            hour < 24,
            d < self@.window.count(),
        ensures
            seen == self@.hour_seen_on(hour as int, d as int),
    {
        let mut facet: usize = 0;
        while facet < self.grouping.facet_count()
            invariant
                self.wf(),
                hour < 24,
                d < self@.window.count(),
                facet <= self@.grouping.facets(),
                forall|f: int|
                    0 <= f < facet ==> !(#[trigger] self@.seen_on(
                        column_of(f, hour as int),
                        d as int,
                    )),
            decreases self@.grouping.facets() - facet,
        {
            let column: usize = facet * HOURS_PER_DAY + hour;
            proof {
                assert(self@.seen[column as int].len() == self@.window.count());
                assert(self@.seen_on(column_of(facet as int, hour as int), d as int)
                    == self.seen@[column as int]@[d as int]);
            }
            if self.seen[column][d] {
                return true;
            }
            facet = facet + 1;
        }
        false
    }

    /// On how many hours of a day of the window anything was observed.
    fn hours_seen(&self, d: usize) -> (hours: usize)
        requires
            self.wf(),
            d < self@.window.count(),
        ensures
            hours == self@.hours_seen_on(d as int),
            hours <= 24,
            hours > 0 <==> self@.any_seen_on(d as int),
    {
        let ghost holds = |hour: int| self@.hour_seen_on(hour, d as int);
        let mut hours: usize = 0;
        let mut hour: usize = 0;
        while hour < HOURS_PER_DAY
            invariant
                self.wf(),
                d < self@.window.count(),
                hour <= 24,
                holds == (|hour: int| self@.hour_seen_on(hour, d as int)),
                hours <= hour,
                hours == sums::count_where(hour as nat, holds),
                hours > 0 <==> exists|h: int|
                    0 <= h < hour && #[trigger] self@.hour_seen_on(h, d as int),
            decreases 24 - hour,
        {
            proof {
                assert(holds(hour as int) == self@.hour_seen_on(hour as int, d as int));
            }
            if self.hour_seen(hour, d) {
                hours = hours + 1;
            }
            hour = hour + 1;
        }
        hours
    }

    /// Distinct days one facet was observed on, at any hour.
    pub fn facet_days(&self, facet: usize) -> (days: u32)
        requires
            self.wf(),
            facet < self@.grouping.facets(),
        ensures
            days == self@.days_of_facet(facet as int),
    {
        let ghost holds = |d: int| self@.facet_seen_on(facet as int, d);
        let mut days: u32 = 0;
        let mut d: usize = 0;
        while d < self.days.len()
            invariant
                self.wf(),
                facet < self@.grouping.facets(),
                d <= self@.window.count(),
                holds == (|d: int| self@.facet_seen_on(facet as int, d)),
                days <= d,
                days == sums::count_where(d as nat, holds),
            decreases self@.window.count() - d,
        {
            let mut found: bool = false;
            let mut hour: usize = 0;
            while hour < HOURS_PER_DAY
                invariant
                    self.wf(),
                    facet < self@.grouping.facets(),
                    d < self@.window.count(),
                    hour <= 24,
                    found == exists|h: int|
                        0 <= h < hour && #[trigger] self@.seen_on(
                            column_of(facet as int, h),
                            d as int,
                        ),
                decreases 24 - hour,
            {
                let column: usize = facet * HOURS_PER_DAY + hour;
                proof {
                    assert(self@.seen[column as int].len() == self@.window.count());
                    assert(self@.seen_on(column_of(facet as int, hour as int), d as int)
                        == self.seen@[column as int]@[d as int]);
                }
                if self.seen[column][d] {
                    found = true;
                }
                hour = hour + 1;
            }
            proof {
                assert(holds(d as int) == self@.facet_seen_on(facet as int, d as int));
            }
            if found {
                days = days + 1;
            }
            d = d + 1;
        }
        days
    }

    /// Distinct days one hour of day was observed on, in any facet.
    pub fn pooled_column_days(&self, hour: usize) -> (days: u32)
        requires
            self.wf(),
            hour < 24,
        ensures
            days == self@.days_of_hour(hour as int),
    {
        let ghost holds = |d: int| self@.hour_seen_on(hour as int, d);
        let mut days: u32 = 0;
        let mut d: usize = 0;
        while d < self.days.len()
            invariant
                self.wf(),
                hour < 24,
                d <= self@.window.count(),
                holds == (|d: int| self@.hour_seen_on(hour as int, d)),
                days <= d,
                days == sums::count_where(d as nat, holds),
            decreases self@.window.count() - d,
        {
            proof {
                assert(holds(d as int) == self@.hour_seen_on(hour as int, d as int));
            }
            if self.hour_seen(hour, d) {
                days = days + 1;
            }
            d = d + 1;
        }
        days
    }

    /// Distinct days observed anywhere in the grid.
    pub fn observed_days(&self) -> (days: u32)
        requires
            self.wf(),
        ensures
            days == self@.days_observed(),
    {
        let ghost holds = |d: int| self@.any_seen_on(d);
        let mut days: u32 = 0;
        let mut d: usize = 0;
        while d < self.days.len()
            invariant
                self.wf(),
                d <= self@.window.count(),
                holds == (|d: int| self@.any_seen_on(d)),
                days <= d,
                days == sums::count_where(d as nat, holds),
            decreases self@.window.count() - d,
        {
            proof {
                assert(holds(d as int) == self@.any_seen_on(d as int));
            }
            if self.hours_seen(d) > 0 {
                days = days + 1;
            }
            d = d + 1;
        }
        days
    }

    /// Days observed on at least `hours` of their hours.
    pub fn days_covering_hours(&self, hours: usize) -> (days: u32)
        requires
            self.wf(),
        ensures
            days == self@.days_with_hours(hours as int),
    {
        let ghost holds = |d: int| self@.hours_seen_on(d) >= hours as int;
        let mut days: u32 = 0;
        let mut d: usize = 0;
        while d < self.days.len()
            invariant
                self.wf(),
                d <= self@.window.count(),
                holds == (|d: int| self@.hours_seen_on(d) >= hours as int),
                days <= d,
                days == sums::count_where(d as nat, holds),
            decreases self@.window.count() - d,
        {
            proof {
                assert(holds(d as int) == (self@.hours_seen_on(d as int) >= hours as int));
            }
            if self.hours_seen(d) >= hours {
                days = days + 1;
            }
            d = d + 1;
        }
        days
    }

    /// The bucket weights of one facet/hour column.
    pub fn column(&self, facet: usize, hour: usize) -> (weights: &[u128])
        requires
            self.wf(),
            facet < self@.grouping.facets(),
            hour < 24,
        ensures
            numbers(weights@) == self@.weights[column_of(facet as int, hour as int)],
    {
        self.weights[facet * HOURS_PER_DAY + hour].as_slice()
    }

    /// Total weight over the whole grid, in seconds.
    pub fn total_weight(&self) -> (seconds: u128)
        requires
            self.wf(),
        ensures
            seconds == self@.total(),
    {
        let ghost totals = self@.column_totals();
        let mut seconds: u128 = 0;
        let mut column: usize = 0;
        while column < self.column_weight.len()
            invariant
                self.wf(),
                totals == self@.column_totals(),
                column <= totals.len(),
                seconds == sums::sum(totals.take(column as int)),
            decreases totals.len() - column,
        {
            proof {
                sums::sum_bounds(totals, column as int);
                sums::sum_of_next(totals, column as int);
                assert(totals[column as int] == self@.column_total(column as int));
            }
            seconds = seconds + self.column_weight[column];
            column = column + 1;
        }
        proof {
            assert(totals.take(column as int) =~= totals);
        }
        seconds
    }

    /// Total number of readings that landed anywhere in the grid.
    pub fn total_samples(&self) -> (readings: u128)
        requires
            self.wf(),
        ensures
            readings == sums::sum(self@.samples),
    {
        let ghost samples = self@.samples;
        proof {
            self.readings_are_bounded();
        }
        let mut readings: u128 = 0;
        let mut column: usize = 0;
        while column < self.column_samples.len()
            invariant
                self.wf(),
                samples == self@.samples,
                sums::sum(samples) <= u128::MAX,
                column <= samples.len(),
                readings == sums::sum(samples.take(column as int)),
            decreases samples.len() - column,
        {
            proof {
                sums::sum_bounds(samples, column as int);
                sums::sum_of_next(samples, column as int);
            }
            readings = readings + self.column_samples[column];
            column = column + 1;
        }
        proof {
            assert(samples.take(column as int) =~= samples);
        }
        readings
    }

    /// A grid counts no more readings than seconds.
    pub proof fn readings_are_bounded(&self)
        requires
            self.wf(),
        ensures
            sums::sum(self@.samples) <= self@.total() <= u128::MAX,
    {
        assert forall|c: int| 0 <= c < self@.samples.len() implies self@.samples[c]
            <= self@.column_totals()[c] by {
            assert(self.column_samples@[c] <= self.column_weight@[c]);
            assert(self.column_weight@[c] == self@.column_total(c));
        }
        sums::sum_is_monotone(self@.samples, self@.column_totals());
    }

    /// Facet indices that carry any data at all, in ascending order.
    pub fn non_empty_facets(&self) -> (facets: Vec<usize>)
        requires
            self.wf(),
        ensures
            forall|i: int, j: int| 0 <= i < j < facets@.len() ==> facets@[i] < facets@[j],
            forall|i: int|
                0 <= i < facets@.len() ==> #[trigger] facets@[i] < self@.grouping.facets()
                    && self@.facet_has_data(facets@[i] as int),
            forall|f: usize|
                f < self@.grouping.facets() && self@.facet_has_data(f as int)
                    ==> #[trigger] facets@.contains(f),
    {
        let mut facets: Vec<usize> = Vec::new();
        let mut facet: usize = 0;
        while facet < self.grouping.facet_count()
            invariant
                self.wf(),
                facet <= self@.grouping.facets(),
                forall|i: int, j: int| 0 <= i < j < facets@.len() ==> facets@[i] < facets@[j],
                forall|i: int|
                    0 <= i < facets@.len() ==> #[trigger] facets@[i] < facet
                        && self@.facet_has_data(facets@[i] as int),
                forall|f: usize|
                    f < facet && self@.facet_has_data(f as int) ==> #[trigger] facets@.contains(f),
            decreases self@.grouping.facets() - facet,
        {
            let mut found: bool = false;
            let mut hour: usize = 0;
            while hour < HOURS_PER_DAY
                invariant
                    self.wf(),
                    facet < self@.grouping.facets(),
                    hour <= 24,
                    found == exists|h: int|
                        0 <= h < hour && #[trigger] self@.column_total(column_of(facet as int, h))
                            > 0,
                decreases 24 - hour,
            {
                let column: usize = facet * HOURS_PER_DAY + hour;
                proof {
                    assert(self.column_weight@[column as int] == self@.column_total(
                        column_of(facet as int, hour as int),
                    ));
                }
                if self.column_weight[column] > 0 {
                    found = true;
                }
                hour = hour + 1;
            }
            let ghost before = facets@;
            if found {
                facets.push(facet);
                proof {
                    assert(facets@[facets@.len() - 1] == facet);
                }
            }
            proof {
                assert forall|f: usize|
                    f < facet + 1 && self@.facet_has_data(f as int) implies #[trigger] facets@.contains(
                    f,
                ) by {
                    if f < facet {
                        assert(before.contains(f));
                        let i = choose|i: int| 0 <= i < before.len() && before[i] == f;
                        assert(facets@[i] == f);
                    }
                }
            }
            facet = facet + 1;
        }
        facets
    }
}

/// One hour of day holds no more than the columns of its facets altogether.
proof fn strided_sum_is_bounded(columns: Seq<nat>, facets: nat, hour: int)
    requires
        columns.len() >= facets * 24,
        0 <= hour < 24,
    ensures
        sums::sum(Seq::new(facets, |facet: int| columns[column_of(facet, hour)])) <= sums::sum(
            columns.take((facets * 24) as int),
        ),
    decreases facets,
{
    let picked = Seq::new(facets, |facet: int| columns[column_of(facet, hour)]);
    if facets > 0 {
        let fewer = (facets - 1) as nat;
        strided_sum_is_bounded(columns, fewer, hour);
        assert(picked.drop_last() =~= Seq::new(
            fewer,
            |facet: int| columns[column_of(facet, hour)],
        ));
        let block = columns.subrange((fewer * 24) as int, (facets * 24) as int);
        assert(columns.take((facets * 24) as int) =~= columns.take((fewer * 24) as int) + block);
        sums::sum_of_concatenation(columns.take((fewer * 24) as int), block);
        sums::sum_bounds(block, hour);
        assert(block[hour] == columns[column_of(fewer as int, hour)]);
    }
}

/// What is pooled at one hour of day is part of the whole grid.
proof fn pooling_is_bounded(grid: GridView, hour: int)
    requires
        grid.shaped(),
        0 <= hour < 24,
    ensures
        grid.pooled_total(hour) <= grid.total(),
        forall|b: int|
            0 <= b < grid.buckets.count() ==> #[trigger] grid.pooled_bucket(hour, b)
                <= grid.pooled_total(hour),
{
    let totals = grid.column_totals();
    let facets = grid.grouping.facets();
    strided_sum_is_bounded(totals, facets, hour);
    assert(totals.take((facets * 24) as int) =~= totals);
    let pooled = Seq::new(facets, |facet: int| grid.column_total(column_of(facet, hour)));
    assert(pooled =~= Seq::new(facets, |facet: int| totals[column_of(facet, hour)]));
    assert forall|b: int| 0 <= b < grid.buckets.count() implies #[trigger] grid.pooled_bucket(
        hour,
        b,
    ) <= grid.pooled_total(hour) by {
        let cells = Seq::new(facets, |facet: int| grid.weights[column_of(facet, hour)][b]);
        assert forall|facet: int| 0 <= facet < facets implies cells[facet] <= pooled[facet] by {
            let c = column_of(facet, hour);
            assert(grid.weights[c].len() == grid.buckets.count());
            sums::sum_bounds(grid.weights[c], b);
        }
        sums::sum_is_monotone(cells, pooled);
    }
}

impl Grid {
    /// The bucket weights of one hour of day, over every facet.
    pub fn pooled_column(&self, hour: usize) -> (weights: Vec<u128>)
        requires
            self.wf(),
            hour < 24,
        ensures
            numbers(weights@) == self@.pooled(hour as int),
    {
        proof {
            pooling_is_bounded(self@, hour as int);
        }
        let mut weights: Vec<u128> = Vec::new();
        let mut bucket: usize = 0;
        while bucket < self.buckets.len()
            invariant
                self.wf(),
                hour < 24,
                bucket <= self@.buckets.count(),
                self@.pooled_total(hour as int) <= u128::MAX,
                forall|b: int|
                    0 <= b < self@.buckets.count() ==> #[trigger] self@.pooled_bucket(
                        hour as int,
                        b,
                    ) <= self@.pooled_total(hour as int),
                weights@.len() == bucket,
                forall|b: int|
                    0 <= b < bucket ==> #[trigger] weights@[b] == self@.pooled_bucket(
                        hour as int,
                        b,
                    ),
            decreases self@.buckets.count() - bucket,
        {
            let ghost cells = Seq::new(
                self@.grouping.facets(),
                |facet: int| self@.weights[column_of(facet, hour as int)][bucket as int],
            );
            proof {
                assert(self@.pooled_bucket(hour as int, bucket as int) == sums::sum(cells));
            }
            let mut seconds: u128 = 0;
            let mut facet: usize = 0;
            while facet < self.grouping.facet_count()
                invariant
                    self.wf(),
                    hour < 24,
                    bucket < self@.buckets.count(),
                    cells == Seq::new(
                        self@.grouping.facets(),
                        |facet: int| self@.weights[column_of(facet, hour as int)][bucket as int],
                    ),
                    sums::sum(cells) <= u128::MAX,
                    facet <= cells.len(),
                    seconds == sums::sum(cells.take(facet as int)),
                decreases cells.len() - facet,
            {
                let column: usize = facet * HOURS_PER_DAY + hour;
                proof {
                    sums::sum_bounds(cells, facet as int);
                    sums::sum_of_next(cells, facet as int);
                    assert(self@.weights[column as int].len() == self@.buckets.count());
                }
                seconds = seconds + self.weights[column][bucket];
                facet = facet + 1;
            }
            proof {
                assert(cells.take(facet as int) =~= cells);
            }
            weights.push(seconds);
            bucket = bucket + 1;
        }
        proof {
            assert(numbers(weights@) =~= self@.pooled(hour as int));
        }
        weights
    }

    /// Total weight of one hour of day over every facet, in seconds.
    pub fn pooled_column_weight(&self, hour: usize) -> (seconds: u128)
        requires
            self.wf(),
            hour < 24,
        ensures
            seconds == self@.pooled_total(hour as int),
    {
        let ghost parts = Seq::new(
            self@.grouping.facets(),
            |facet: int| self@.column_total(column_of(facet, hour as int)),
        );
        proof {
            pooling_is_bounded(self@, hour as int);
        }
        let mut seconds: u128 = 0;
        let mut facet: usize = 0;
        while facet < self.grouping.facet_count()
            invariant
                self.wf(),
                hour < 24,
                parts == Seq::new(
                    self@.grouping.facets(),
                    |facet: int| self@.column_total(column_of(facet, hour as int)),
                ),
                sums::sum(parts) <= u128::MAX,
                facet <= parts.len(),
                seconds == sums::sum(parts.take(facet as int)),
            decreases parts.len() - facet,
        {
            let column: usize = facet * HOURS_PER_DAY + hour;
            proof {
                sums::sum_bounds(parts, facet as int);
                sums::sum_of_next(parts, facet as int);
                assert(self.column_weight@[column as int] == self@.column_total(column as int));
            }
            seconds = seconds + self.column_weight[column];
            facet = facet + 1;
        }
        proof {
            assert(parts.take(facet as int) =~= parts);
        }
        seconds
    }

    /// Number of readings at one hour of day, over every facet.
    pub fn pooled_column_samples(&self, hour: usize) -> (readings: u128)
        requires
            self.wf(),
            hour < 24,
        ensures
            readings == self@.pooled_samples(hour as int),
    {
        let ghost parts = Seq::new(
            self@.grouping.facets(),
            |facet: int| self@.samples[column_of(facet, hour as int)],
        );
        proof {
            self.readings_are_bounded();
            strided_sum_is_bounded(self@.samples, self@.grouping.facets(), hour as int);
            assert(self@.samples.take((self@.grouping.facets() * 24) as int) =~= self@.samples);
        }
        let mut readings: u128 = 0;
        let mut facet: usize = 0;
        while facet < self.grouping.facet_count()
            invariant
                self.wf(),
                hour < 24,
                parts == Seq::new(
                    self@.grouping.facets(),
                    |facet: int| self@.samples[column_of(facet, hour as int)],
                ),
                sums::sum(parts) <= u128::MAX,
                facet <= parts.len(),
                readings == sums::sum(parts.take(facet as int)),
            decreases parts.len() - facet,
        {
            let column: usize = facet * HOURS_PER_DAY + hour;
            proof {
                sums::sum_bounds(parts, facet as int);
                sums::sum_of_next(parts, facet as int);
            }
            readings = readings + self.column_samples[column];
            facet = facet + 1;
        }
        proof {
            assert(parts.take(facet as int) =~= parts);
        }
        readings
    }
}

impl Grid {
    /// The weights of one column sum to its total, which fits.
    pub proof fn column_weights_fit(&self, column: int)
        requires
            self.wf(),
            0 <= column < self@.columns(),
        ensures
            sums::sum(self@.weights[column]) == self@.column_total(column),
            self@.column_total(column) == self@.column_totals()[column],
            self@.column_total(column) <= self@.total() <= u128::MAX,
            self@.column_totals().len() == self@.columns(),
            self@.samples.len() == self@.columns(),
    {
        sums::sum_bounds(self@.column_totals(), column);
    }

    /// The hours of one facet are part of the whole grid.
    pub proof fn facet_sums_fit(&self, facet: int)
        requires
            self.wf(),
            0 <= facet < self@.grouping.facets(),
        ensures
            sums::sum(Seq::new(24, |hour: int| self@.column_total(column_of(facet, hour))))
                <= u128::MAX,
            sums::sum(Seq::new(24, |hour: int| self@.samples[column_of(facet, hour)])) <= u128::MAX,
    {
        self.readings_are_bounded();
        let totals = self@.column_totals();
        block_sum_is_bounded(totals, facet * 24);
        assert(totals.subrange(facet * 24, facet * 24 + 24) =~= Seq::new(
            24,
            |hour: int| self@.column_total(column_of(facet, hour)),
        ));
        block_sum_is_bounded(self@.samples, facet * 24);
        assert(self@.samples.subrange(facet * 24, facet * 24 + 24) =~= Seq::new(
            24,
            |hour: int| self@.samples[column_of(facet, hour)],
        ));
    }

    /// The pooled weights of one hour of day sum to its pooled total, which fits.
    pub proof fn pooled_weights_fit(&self, hour: int)
        requires
            self.wf(),
            0 <= hour < 24,
        ensures
            sums::sum(self@.pooled(hour)) == self@.pooled_total(hour),
            self@.pooled_total(hour) <= u128::MAX,
    {
        pooling_is_bounded(self@, hour);
        pooling_adds_up(self@, hour);
    }
}

/// A block of columns is part of all of them.
proof fn block_sum_is_bounded(columns: Seq<nat>, from: int)
    requires
        0 <= from,
        from + 24 <= columns.len(),
    ensures
        sums::sum(columns.subrange(from, from + 24)) <= sums::sum(columns),
{
    let block = columns.subrange(from, from + 24);
    assert(columns =~= columns.take(from) + block + columns.skip(from + 24));
    sums::sum_of_concatenation(columns.take(from) + block, columns.skip(from + 24));
    sums::sum_of_concatenation(columns.take(from), block);
}

/// The first facets' seconds at one hour of day, bucket by bucket.
spec fn partly_pooled(grid: GridView, hour: int, facets: nat) -> Seq<nat> {
    Seq::new(
        grid.buckets.count(),
        |b: int|
            sums::sum(Seq::new(facets, |facet: int| grid.weights[column_of(facet, hour)][b])),
    )
}

/// Summing the buckets of an hour over all facets gives what summing its facets gives.
proof fn partial_pooling_adds_up(grid: GridView, hour: int, facets: nat)
    requires
        grid.shaped(),
        0 <= hour < 24,
        facets <= grid.grouping.facets(),
    ensures
        sums::sum(partly_pooled(grid, hour, facets)) == sums::sum(
            Seq::new(facets, |facet: int| grid.column_total(column_of(facet, hour))),
        ),
    decreases facets,
{
    let totals = Seq::new(facets, |facet: int| grid.column_total(column_of(facet, hour)));
    if facets == 0 {
        assert forall|b: int| 0 <= b < grid.buckets.count() implies partly_pooled(
            grid,
            hour,
            facets,
        )[b] == 0 by {
            assert(Seq::new(0, |facet: int| grid.weights[column_of(facet, hour)][b])
                =~= Seq::empty());
        }
        sums::sum_of_zeros(partly_pooled(grid, hour, facets));
        assert(totals =~= Seq::empty());
    } else {
        let fewer = (facets - 1) as nat;
        partial_pooling_adds_up(grid, hour, fewer);
        let row = grid.weights[column_of(fewer as int, hour)];
        assert(row.len() == grid.buckets.count());
        assert forall|b: int| 0 <= b < grid.buckets.count() implies partly_pooled(
            grid,
            hour,
            facets,
        )[b] == partly_pooled(grid, hour, fewer)[b] + row[b] by {
            let cells = Seq::new(facets, |facet: int| grid.weights[column_of(facet, hour)][b]);
            assert(cells.drop_last() =~= Seq::new(
                fewer,
                |facet: int| grid.weights[column_of(facet, hour)][b],
            ));
        }
        assert(partly_pooled(grid, hour, facets) =~= sums::sums(
            partly_pooled(grid, hour, fewer),
            row,
        ));
        sums::sum_of_sums(partly_pooled(grid, hour, fewer), row);
        assert(totals.drop_last() =~= Seq::new(
            fewer,
            |facet: int| grid.column_total(column_of(facet, hour)),
        ));
    }
}

/// The pooled column of an hour of day holds the time of that hour in every facet, neither
/// more nor less.
pub proof fn pooling_adds_up(grid: GridView, hour: int)
    requires
        grid.shaped(),
        0 <= hour < 24,
    ensures
        sums::sum(grid.pooled(hour)) == grid.pooled_total(hour),
{
    partial_pooling_adds_up(grid, hour, grid.grouping.facets());
    assert(partly_pooled(grid, hour, grid.grouping.facets()) =~= grid.pooled(hour));
}

/// Element-wise sum of two rows of weights.
fn merge_weights(left: &[u128], right: &[u128]) -> (row: Vec<u128>)
    requires
        left@.len() == right@.len(),
        sums::sum(numbers(left@)) + sums::sum(numbers(right@)) <= u128::MAX,
    ensures
        numbers(row@) == sums::sums(numbers(left@), numbers(right@)),
{
    let mut row: Vec<u128> = Vec::new();
    let mut i: usize = 0;
    while i < left.len()
        invariant
            i <= left@.len(),
            left@.len() == right@.len(),
            sums::sum(numbers(left@)) + sums::sum(numbers(right@)) <= u128::MAX,
            row@.len() == i,
            forall|j: int| 0 <= j < i ==> row@[j] == left@[j] + right@[j],
        decreases left@.len() - i,
    {
        proof {
            sums::sum_bounds(numbers(left@), i as int);
            sums::sum_bounds(numbers(right@), i as int);
        }
        row.push(left[i] + right[i]);
        i = i + 1;
    }
    proof {
        assert(numbers(row@) =~= sums::sums(numbers(left@), numbers(right@)));
    }
    row
}

/// The days either of two rows has.
fn merge_days(left: &[bool], right: &[bool]) -> (row: Vec<bool>)
    requires
        left@.len() == right@.len(),
    ensures
        row@.len() == left@.len(),
        forall|j: int| 0 <= j < row@.len() ==> row@[j] == (left@[j] || right@[j]),
{
    let mut row: Vec<bool> = Vec::new();
    let mut i: usize = 0;
    while i < left.len()
        invariant
            i <= left@.len(),
            left@.len() == right@.len(),
            row@.len() == i,
            forall|j: int| 0 <= j < i ==> row@[j] == (left@[j] || right@[j]),
        decreases left@.len() - i,
    {
        row.push(left[i] || right[i]);
        i = i + 1;
    }
    row
}

/// Merging adds the totals, column by column and altogether.
pub proof fn merged_totals(left: GridView, right: GridView)
    requires
        left.shaped(),
        right.shaped(),
        left.comparable(right),
    ensures
        left.merged(right).shaped(),
        left.merged(right).column_totals() == sums::sums(
            left.column_totals(),
            right.column_totals(),
        ),
        left.merged(right).total() == left.total() + right.total(),
{
    let both = left.merged(right);
    assert forall|c: int| 0 <= c < both.columns() implies both.column_totals()[c]
        == left.column_totals()[c] + right.column_totals()[c] by {
        assert(left.weights[c].len() == right.weights[c].len());
        sums::sum_of_sums(left.weights[c], right.weights[c]);
    }
    assert(both.column_totals() =~= sums::sums(left.column_totals(), right.column_totals()));
    sums::sum_of_sums(left.column_totals(), right.column_totals());
}

/// It does not matter in which order two grids are merged.
pub proof fn merging_is_commutative(left: GridView, right: GridView)
    requires
        left.shaped(),
        right.shaped(),
        left.comparable(right),
    ensures
        left.merged(right) == right.merged(left),
{
    let (a, b) = (left.merged(right), right.merged(left));
    assert forall|c: int| 0 <= c < left.columns() implies a.weights[c] == b.weights[c] by {
        assert(left.weights[c].len() == right.weights[c].len());
        assert(a.weights[c] =~= b.weights[c]);
    }
    assert forall|c: int| 0 <= c < left.columns() implies a.seen[c] == b.seen[c] by {
        assert(left.seen[c].len() == right.seen[c].len());
        assert(a.seen[c] =~= b.seen[c]);
    }
    assert(a =~= b);
}

/// It does not matter how three grids are grouped when they are merged.
pub proof fn merging_is_associative(first: GridView, second: GridView, third: GridView)
    requires
        first.shaped(),
        second.shaped(),
        third.shaped(),
        first.comparable(second),
        first.comparable(third),
    ensures
        first.merged(second).merged(third) == first.merged(second.merged(third)),
{
    let a = first.merged(second).merged(third);
    let b = first.merged(second.merged(third));
    assert forall|c: int| 0 <= c < first.columns() implies a.weights[c] == b.weights[c] by {
        assert(first.weights[c].len() == second.weights[c].len());
        assert(a.weights[c] =~= b.weights[c]);
    }
    assert forall|c: int| 0 <= c < first.columns() implies a.seen[c] == b.seen[c] by {
        assert(first.seen[c].len() == second.seen[c].len());
        assert(a.seen[c] =~= b.seen[c]);
    }
    assert(a =~= b);
}

/// Merging with a blank grid changes nothing.
pub proof fn merging_a_blank_grid_changes_nothing(grid: GridView)
    requires
        grid.shaped(),
    ensures
        grid.merged(GridView::blank(grid.grouping, grid.buckets, grid.window)) == grid,
{
    let blank = GridView::blank(grid.grouping, grid.buckets, grid.window);
    let both = grid.merged(blank);
    assert forall|c: int| 0 <= c < grid.columns() implies both.weights[c] == grid.weights[c] by {
        assert(both.weights[c] =~= grid.weights[c]);
    }
    assert forall|c: int| 0 <= c < grid.columns() implies both.seen[c] == grid.seen[c] by {
        assert(both.seen[c] =~= grid.seen[c]);
    }
    assert(both =~= grid);
}

/// Adding to one of two grids and then merging is the same as merging and then adding.
pub proof fn adding_commutes_with_merging(
    left: GridView,
    right: GridView,
    facet: int,
    hour: int,
    bucket: int,
    seconds: nat,
    day: int,
)
    requires
        left.shaped(),
        right.shaped(),
        left.comparable(right),
        0 <= facet,
        0 <= hour,
        0 <= bucket < left.buckets.count(),
    ensures
        left.merged(right.added(facet, hour, bucket, seconds, day)) == left.merged(right).added(
            facet,
            hour,
            bucket,
            seconds,
            day,
        ),
        right.added(facet, hour, bucket, seconds, day).shaped(),
{
    let more = right.added(facet, hour, bucket, seconds, day);
    let a = left.merged(more);
    let b = left.merged(right).added(facet, hour, bucket, seconds, day);
    if right.accepts(facet, hour, seconds) {
        let at = column_of(facet, hour);
        assert(0 <= at < right.columns());
        assert forall|c: int| 0 <= c < left.columns() implies (#[trigger] more.weights[c]).len()
            == right.buckets.count() by {
            assert(right.weights[c].len() == right.buckets.count());
        }
        assert forall|c: int| 0 <= c < left.columns() implies (#[trigger] more.seen[c]).len()
            == right.window.count() by {
            assert(right.seen[c].len() == right.window.count());
        }
        assert forall|c: int| 0 <= c < left.columns() implies a.weights[c] == b.weights[c] by {
            assert(left.weights[c].len() == right.weights[c].len());
            assert(a.weights[c] =~= b.weights[c]);
        }
        assert forall|c: int| 0 <= c < left.columns() implies a.seen[c] == b.seen[c] by {
            assert(left.seen[c].len() == right.seen[c].len());
            assert(a.seen[c] =~= b.seen[c]);
        }
        assert(a.samples =~= b.samples);
        assert(a.weights =~= b.weights);
        assert(a.seen =~= b.seen);
    }
    assert(a =~= b);
}

/// A valid grid has every column, with its buckets and its days.
pub proof fn valid_grids_are_shaped(grid: Grid)
    requires
        grid.wf(),
    ensures
        grid@.shaped(),
{
}

/// Days that were recorded right through are days that were recorded: no more of them were
/// observed on some number of hours than were observed at all.
pub proof fn full_days_are_observed_days(grid: GridView, hours: int)
    requires
        hours >= 1,
    ensures
        grid.days_with_hours(hours) <= grid.days_observed(),
{
    let full = |d: int| grid.hours_seen_on(d) >= hours;
    let observed = |d: int| grid.any_seen_on(d);
    assert forall|d: int| 0 <= d < grid.window.count() && #[trigger] full(d) implies observed(
        d,
    ) by {
        let seen = |hour: int| grid.hour_seen_on(hour, d);
        sums::a_count_has_a_witness(24, seen);
        let hour = choose|hour: int| 0 <= hour < 24 && #[trigger] seen(hour);
        assert(grid.hour_seen_on(hour, d));
    }
    sums::count_is_monotone(grid.window.count(), full, observed);
}

/// A facet is never observed on more days than anything is.
pub proof fn no_facet_outlasts_the_record(grid: GridView, facet: int)
    requires
        0 <= facet < grid.grouping.facets(),
    ensures
        grid.days_of_facet(facet) <= grid.days_observed(),
{
    let seen = |d: int| grid.facet_seen_on(facet, d);
    let observed = |d: int| grid.any_seen_on(d);
    assert forall|d: int| 0 <= d < grid.window.count() && #[trigger] seen(d) implies observed(
        d,
    ) by {
        let hour = choose|hour: int|
            0 <= hour < 24 && #[trigger] grid.seen_on(column_of(facet, hour), d);
        assert(grid.hour_seen_on(hour, d));
    }
    sums::count_is_monotone(grid.window.count(), seen, observed);
}

/// An addition raises one cell by its seconds, its column by one reading, and marks its
/// column as seen on its day; every other cell, column and day stays as it was. What is out
/// of range or takes no time changes nothing.
pub proof fn an_addition_lands_in_one_cell(
    grid: GridView,
    facet: int,
    hour: int,
    bucket: int,
    seconds: nat,
    day: int,
    f: int,
    h: int,
)
    requires
        grid.shaped(),
        0 <= facet,
        0 <= hour,
        0 <= bucket < grid.buckets.count(),
        0 <= f < grid.grouping.facets(),
        0 <= h < 24,
    ensures
        ({
            let after = grid.added(facet, hour, bucket, seconds, day);
            let c = f * 24 + h;
            let here = f == facet && h == hour && seconds > 0;
            &&& forall|b: int|
                0 <= b < grid.buckets.count() ==> #[trigger] after.weights[c][b]
                    == grid.weights[c][b] + if here && b == bucket {
                    seconds
                } else {
                    0
                }
            &&& after.samples[c] == grid.samples[c] + if here {
                1nat
            } else {
                0nat
            }
            &&& forall|d: int|
                0 <= d < grid.window.count() ==> (#[trigger] after.seen_on(c, d) <==> grid.seen_on(
                    c,
                    d,
                ) || (here && grid.window.first_day() + d == day))
            &&& after.grouping == grid.grouping
            &&& after.buckets == grid.buckets
            &&& after.window == grid.window
        }),
{
    let c = f * 24 + h;
    assert(c == column_of(f, h));
    assert(0 <= c < grid.columns());
    assert(grid.weights[c].len() == grid.buckets.count());
    assert(grid.seen[c].len() == grid.window.count());
    if grid.accepts(facet, hour, seconds) {
        assert(0 <= column_of(facet, hour) < grid.columns());
        assert(grid.weights[column_of(facet, hour)].len() == grid.buckets.count());
        assert(grid.seen[column_of(facet, hour)].len() == grid.window.count());
    }
}

/// A blank grid holds nothing: no time, no readings and no days.
pub proof fn a_blank_grid_holds_nothing(
    grouping: Grouping,
    buckets: BucketSpec,
    window: DayWindow,
    facet: int,
    hour: int,
)
    requires
        0 <= facet < grouping.facets(),
        0 <= hour < 24,
    ensures
        ({
            let blank = GridView::blank(grouping, buckets, window);
            let c = facet * 24 + hour;
            &&& forall|b: int| 0 <= b < buckets.count() ==> #[trigger] blank.weights[c][b] == 0
            &&& blank.samples[c] == 0
            &&& forall|d: int| 0 <= d < window.count() ==> !#[trigger] blank.seen_on(c, d)
            &&& blank.days_of_column(c) == 0
            &&& blank.column_total(c) == 0
        }),
{
    let blank = GridView::blank(grouping, buckets, window);
    let c = facet * 24 + hour;
    sums::sum_of_zeros(blank.weights[c]);
    sums::counts_at_the_extremes(window.count(), |d: int| blank.seen_on(c, d));
}

/// Merging adds cell to cell and reading to reading, and a day seen by either was seen.
pub proof fn merging_adds_cell_by_cell(left: GridView, right: GridView, facet: int, hour: int)
    requires
        left.shaped(),
        right.shaped(),
        left.comparable(right),
        0 <= facet < left.grouping.facets(),
        0 <= hour < 24,
    ensures
        ({
            let merged = left.merged(right);
            let c = facet * 24 + hour;
            &&& forall|b: int|
                0 <= b < left.buckets.count() ==> #[trigger] merged.weights[c][b]
                    == left.weights[c][b] + right.weights[c][b]
            &&& merged.samples[c] == left.samples[c] + right.samples[c]
            &&& forall|d: int|
                0 <= d < left.window.count() ==> (#[trigger] merged.seen_on(c, d) <==> left.seen_on(
                    c,
                    d,
                ) || right.seen_on(c, d))
        }),
{
    let c = facet * 24 + hour;
    assert(0 <= c < left.columns());
    assert(left.weights[c].len() == left.buckets.count());
    assert(left.seen[c].len() == left.window.count());
}

/// A day counts once, however often a column was observed on it, and only for the column,
/// the hour of day and the facet it was observed at: an addition raises each of these counts
/// by one exactly where the day is new to it.
pub proof fn a_day_counts_once(
    grid: GridView,
    facet: int,
    hour: int,
    bucket: int,
    seconds: nat,
    day: int,
)
    requires
        grid.shaped(),
        0 <= facet < grid.grouping.facets(),
        0 <= hour < 24,
        0 <= bucket < grid.buckets.count(),
        seconds > 0,
        grid.window.covers(day),
    ensures
        ({
            let after = grid.added(facet, hour, bucket, seconds, day);
            let c = facet * 24 + hour;
            let d = day - grid.window.first_day();
            &&& after.days_of_column(c) == grid.days_of_column(c) + if grid.seen_on(c, d) {
                0nat
            } else {
                1nat
            }
            &&& after.days_of_facet(facet) == grid.days_of_facet(facet) + if exists|h: int|
                0 <= h < 24 && #[trigger] grid.seen_on(column_of(facet, h), d) {
                0nat
            } else {
                1nat
            }
            &&& after.days_of_hour(hour) == grid.days_of_hour(hour) + if exists|f: int|
                0 <= f < grid.grouping.facets() && #[trigger] grid.seen_on(
                    column_of(f, hour),
                    d,
                ) {
                0nat
            } else {
                1nat
            }
            &&& after.days_observed() == grid.days_observed() + if grid.any_seen_on(d) {
                0nat
            } else {
                1nat
            }
        }),
{
    let after = grid.added(facet, hour, bucket, seconds, day);
    let c = facet * 24 + hour;
    let d = day - grid.window.first_day();
    let n = grid.window.count();
    assert forall|f: int, h: int, e: int|
        0 <= f < grid.grouping.facets() && 0 <= h < 24 && 0 <= e < n implies (
    #[trigger] after.seen_on(column_of(f, h), e) <==> grid.seen_on(column_of(f, h), e) || (f
        == facet && h == hour && e == d)) by {
        an_addition_lands_in_one_cell(grid, facet, hour, bucket, seconds, day, f, h);
        assert(column_of(f, h) == f * 24 + h);
        assert(after.seen_on(f * 24 + h, e) <==> grid.seen_on(f * 24 + h, e) || (f == facet && h
            == hour && grid.window.first_day() + e == day));
    }
    assert(after.seen_on(column_of(facet, hour), d));
    sums::count_of_one_more(
        n,
        |e: int| grid.seen_on(c, e),
        |e: int| after.seen_on(c, e),
        d,
    );
    assert forall|e: int| 0 <= e < n implies (#[trigger] after.facet_seen_on(facet, e)
        <==> grid.facet_seen_on(facet, e) || e == d) by {
        if grid.facet_seen_on(facet, e) {
            let h = choose|h: int|
                0 <= h < 24 && #[trigger] grid.seen_on(column_of(facet, h), e);
            assert(after.seen_on(column_of(facet, h), e));
        }
        if after.facet_seen_on(facet, e) {
            let h = choose|h: int|
                0 <= h < 24 && #[trigger] after.seen_on(column_of(facet, h), e);
            assert(grid.seen_on(column_of(facet, h), e) || e == d);
        }
    }
    sums::count_of_one_more(
        n,
        |e: int| grid.facet_seen_on(facet, e),
        |e: int| after.facet_seen_on(facet, e),
        d,
    );
    assert forall|h: int, e: int| 0 <= h < 24 && 0 <= e < n implies (
    #[trigger] after.hour_seen_on(h, e) <==> grid.hour_seen_on(h, e) || (h == hour && e == d)) by {
        if grid.hour_seen_on(h, e) {
            let f = choose|f: int|
                0 <= f < grid.grouping.facets() && #[trigger] grid.seen_on(column_of(f, h), e);
            assert(after.seen_on(column_of(f, h), e));
        }
        if after.hour_seen_on(h, e) {
            let f = choose|f: int|
                0 <= f < after.grouping.facets() && #[trigger] after.seen_on(column_of(f, h), e);
            assert(grid.seen_on(column_of(f, h), e) || (h == hour && e == d));
        }
    }
    assert(after.hour_seen_on(hour, d));
    sums::count_of_one_more(
        n,
        |e: int| grid.hour_seen_on(hour, e),
        |e: int| after.hour_seen_on(hour, e),
        d,
    );
    assert forall|e: int| 0 <= e < n implies (#[trigger] after.any_seen_on(e)
        <==> grid.any_seen_on(e) || e == d) by {
        if grid.any_seen_on(e) {
            let h = choose|h: int| 0 <= h < 24 && #[trigger] grid.hour_seen_on(h, e);
            assert(after.hour_seen_on(h, e));
        }
        if after.any_seen_on(e) {
            let h = choose|h: int| 0 <= h < 24 && #[trigger] after.hour_seen_on(h, e);
            assert(grid.hour_seen_on(h, e) || e == d);
        }
    }
    sums::count_of_one_more(
        n,
        |e: int| grid.any_seen_on(e),
        |e: int| after.any_seen_on(e),
        d,
    );
}

/// A day is observed on as many hours of day as anything was seen at on it, whichever facet
/// it was seen in.
pub proof fn an_hour_of_a_day_counts_once(
    grid: GridView,
    facet: int,
    hour: int,
    bucket: int,
    seconds: nat,
    day: int,
)
    requires
        grid.shaped(),
        0 <= facet < grid.grouping.facets(),
        0 <= hour < 24,
        0 <= bucket < grid.buckets.count(),
        seconds > 0,
        grid.window.covers(day),
    ensures
        ({
            let after = grid.added(facet, hour, bucket, seconds, day);
            let d = day - grid.window.first_day();
            after.hours_seen_on(d) == grid.hours_seen_on(d) + if grid.hour_seen_on(hour, d) {
                0nat
            } else {
                1nat
            }
        }),
{
    let after = grid.added(facet, hour, bucket, seconds, day);
    let d = day - grid.window.first_day();
    assert forall|f: int, h: int|
        0 <= f < grid.grouping.facets() && 0 <= h < 24 implies (#[trigger] after.seen_on(
        column_of(f, h),
        d,
    ) <==> grid.seen_on(column_of(f, h), d) || (f == facet && h == hour)) by {
        an_addition_lands_in_one_cell(grid, facet, hour, bucket, seconds, day, f, h);
        assert(column_of(f, h) == f * 24 + h);
        assert(after.seen_on(f * 24 + h, d) <==> grid.seen_on(f * 24 + h, d) || (f == facet && h
            == hour && grid.window.first_day() + d == day));
    }
    assert forall|h: int| 0 <= h < 24 implies (#[trigger] after.hour_seen_on(h, d)
        <==> grid.hour_seen_on(h, d) || h == hour) by {
        if grid.hour_seen_on(h, d) {
            let f = choose|f: int|
                0 <= f < grid.grouping.facets() && #[trigger] grid.seen_on(column_of(f, h), d);
            assert(after.seen_on(column_of(f, h), d));
        }
        if h == hour {
            assert(after.seen_on(column_of(facet, hour), d));
        }
        if after.hour_seen_on(h, d) {
            let f = choose|f: int|
                0 <= f < after.grouping.facets() && #[trigger] after.seen_on(column_of(f, h), d);
            assert(grid.seen_on(column_of(f, h), d) || h == hour);
        }
    }
    sums::count_of_one_more(
        24,
        |h: int| grid.hour_seen_on(h, d),
        |h: int| after.hour_seen_on(h, d),
        hour,
    );
}

/// What is added to a facet at an hour of day is added to the whole record at that hour of
/// day, and to no other.
pub proof fn additions_reach_the_whole_record(
    grid: GridView,
    facet: int,
    hour: int,
    bucket: int,
    seconds: nat,
    day: int,
    h: int,
)
    requires
        grid.shaped(),
        0 <= facet < grid.grouping.facets(),
        0 <= hour < 24,
        0 <= bucket < grid.buckets.count(),
        0 <= h < 24,
    ensures
        ({
            let after = grid.added(facet, hour, bucket, seconds, day);
            let here = h == hour && seconds > 0;
            &&& forall|b: int|
                0 <= b < grid.buckets.count() ==> #[trigger] after.pooled(h)[b] == grid.pooled(
                    h,
                )[b] + if here && b == bucket {
                    seconds
                } else {
                    0
                }
            &&& after.pooled_samples(h) == grid.pooled_samples(h) + if here {
                1nat
            } else {
                0nat
            }
        }),
{
    let after = grid.added(facet, hour, bucket, seconds, day);
    let facets = grid.grouping.facets();
    let here = h == hour && seconds > 0;
    assert forall|b: int| 0 <= b < grid.buckets.count() implies #[trigger] after.pooled(h)[b]
        == grid.pooled(h)[b] + if here && b == bucket {
        seconds
    } else {
        0
    } by {
        let was = Seq::new(facets, |f: int| grid.weights[column_of(f, h)][b]);
        let is = Seq::new(facets, |f: int| after.weights[column_of(f, h)][b]);
        assert forall|f: int| 0 <= f < facets implies is[f] == was[f] + if here && f == facet && b
            == bucket {
            seconds
        } else {
            0
        } by {
            an_addition_lands_in_one_cell(grid, facet, hour, bucket, seconds, day, f, h);
            assert(column_of(f, h) == f * 24 + h);
            assert(after.weights[f * 24 + h][b] == grid.weights[f * 24 + h][b] + if f == facet && h
                == hour && seconds > 0 && b == bucket {
                seconds
            } else {
                0
            });
        }
        if here && b == bucket {
            assert(is =~= was.update(facet, was[facet] + seconds));
            sums::sum_of_update(was, facet, seconds);
        } else {
            assert(is =~= was);
        }
    }
    let was = Seq::new(facets, |f: int| grid.samples[column_of(f, h)]);
    let is = Seq::new(facets, |f: int| after.samples[column_of(f, h)]);
    assert forall|f: int| 0 <= f < facets implies is[f] == was[f] + if here && f == facet {
        1nat
    } else {
        0nat
    } by {
        an_addition_lands_in_one_cell(grid, facet, hour, bucket, seconds, day, f, h);
        assert(column_of(f, h) == f * 24 + h);
    }
    if here {
        assert(is =~= was.update(facet, was[facet] + 1));
        sums::sum_of_update(was, facet, 1);
    } else {
        assert(is =~= was);
    }
}

/// A facet has data exactly when some cell of it holds time.
pub proof fn facets_with_time_have_data(grid: GridView, facet: int)
    requires
        grid.shaped(),
        0 <= facet < grid.grouping.facets(),
    ensures
        grid.facet_has_data(facet) <==> exists|hour: int, bucket: int|
            0 <= hour < 24 && 0 <= bucket < grid.buckets.count()
                && #[trigger] grid.weights[facet * 24 + hour][bucket] > 0,
{
    if grid.facet_has_data(facet) {
        let hour = choose|hour: int|
            0 <= hour < 24 && #[trigger] grid.column_total(column_of(facet, hour)) > 0;
        let row = grid.weights[column_of(facet, hour)];
        assert(0 <= column_of(facet, hour) < grid.columns());
        assert(row.len() == grid.buckets.count());
        if forall|i: int| 0 <= i < row.len() ==> row[i] == 0 {
            sums::sum_of_zeros(row);
        }
        let bucket = choose|i: int| 0 <= i < row.len() && row[i] != 0;
        assert(grid.weights[facet * 24 + hour][bucket] > 0);
    }
    if exists|hour: int, bucket: int|
        0 <= hour < 24 && 0 <= bucket < grid.buckets.count()
            && #[trigger] grid.weights[facet * 24 + hour][bucket] > 0 {
        let (hour, bucket) = choose|hour: int, bucket: int|
            0 <= hour < 24 && 0 <= bucket < grid.buckets.count()
                && #[trigger] grid.weights[facet * 24 + hour][bucket] > 0;
        let row = grid.weights[column_of(facet, hour)];
        assert(0 <= column_of(facet, hour) < grid.columns());
        assert(row.len() == grid.buckets.count());
        sums::sum_bounds(row, bucket);
        assert(grid.column_total(column_of(facet, hour)) > 0);
    }
}

/// A blank grid has a column for every hour of day of every facet, a bucket for every step of
/// the axis and an entry for every day of the window.
pub proof fn blank_grids_have_room_for_everything(
    grouping: Grouping,
    buckets: BucketSpec,
    window: DayWindow,
)
    requires
        buckets.wf(),
    ensures
        ({
            let blank = GridView::blank(grouping, buckets, window);
            &&& blank.shaped()
            &&& blank.weights.len() == grouping.facets() * 24
            &&& blank.samples.len() == grouping.facets() * 24
            &&& blank.seen.len() == grouping.facets() * 24
            &&& blank.grouping == grouping
            &&& blank.buckets == buckets
            &&& blank.window == window
        }),
{
}

/// Cells are counted bucket by bucket and column by column, and past the last one there is
/// nothing.
pub proof fn cells_are_counted_column_by_column(grid: GridView, column: int, bucket: int)
    requires
        grid.buckets.wf(),
        column >= 0,
        0 <= bucket < grid.buckets.count(),
    ensures
        column < grid.grouping.facets() * 24 ==> grid.cell_or_zero(
            column * grid.buckets.count() + bucket,
        ) == grid.weights[column][bucket],
        column >= grid.grouping.facets() * 24 ==> grid.cell_or_zero(
            column * grid.buckets.count() + bucket,
        ) == 0,
{
    let n = grid.buckets.count() as int;
    vstd::arithmetic::div_mod::lemma_fundamental_div_mod_converse(
        column * n + bucket,
        n,
        column,
        bucket,
    );
}

/// What lies beyond the end of a row is nothing.
pub proof fn rows_end_with_nothing(row: Seq<nat>, index: int)
    requires
        index >= 0,
    ensures
        index >= row.len() ==> entry_or_zero(row, index) == 0,
        index < row.len() ==> entry_or_zero(row, index) == row[index],
{
}

} // verus!
