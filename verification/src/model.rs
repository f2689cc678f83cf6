//! The data types shared by the ingest, aggregation and rendering stages.

use vstd::prelude::*;

pub use crate::grid::Grid;
use crate::text;
use crate::timeutil::{DayNumber, LocalParts, Zone};

verus! {

/// One power reading that was in effect over the half-open UTC interval
/// `[start_ts, end_ts)`.
///
/// Long-term statistics rows cover a fixed hour, short-term rows five minutes, and raw
/// recorder states cover the time until the next state change (capped by `--max-gap`).
/// Expressing all three the same way lets the aggregation weight every reading by how
/// long it actually applied instead of by how often the sensor happened to report.
///
/// What a reading says is of no concern to the intervals, so its type is left open.
#[derive(Debug, Clone, Copy, PartialEq)]
pub struct Sample<W> {
    pub start_ts: i64,
    pub end_ts: i64,
    pub watts: W,
}

/// The earlier of two instants.
pub open spec fn earlier(a: int, b: int) -> int {
    if a <= b {
        a
    } else {
        b
    }
}

/// The later of two instants.
pub open spec fn later(a: int, b: int) -> int {
    if a >= b {
        a
    } else {
        b
    }
}

impl<W> Sample<W> {
    /// Seconds the reading was in effect, never negative.
    pub open spec fn length(self) -> int {
        later(self.end_ts - self.start_ts, 0)
    }

    /// Where the sample starts once clipped to begin no earlier than `from`.
    pub open spec fn clipped_start(self, from: Option<i64>) -> int {
        match from {
            Some(from) => later(self.start_ts as int, from as int),
            None => self.start_ts as int,
        }
    }

    /// Where the sample ends once clipped to end no later than `to`.
    pub open spec fn clipped_end(self, to: Option<i64>) -> int {
        match to {
            Some(to) => earlier(self.end_ts as int, to as int),
            None => self.end_ts as int,
        }
    }

    pub fn new(start_ts: i64, end_ts: i64, watts: W) -> (sample: Self)
        ensures
            sample == (Sample { start_ts, end_ts, watts }),
    {
        Sample { start_ts, end_ts, watts }
    }

    /// Duration in seconds, never negative.
    pub fn duration(&self) -> (seconds: i64)
        requires
            self.end_ts - self.start_ts <= i64::MAX,
        ensures
            seconds == self.length(),
    {
        if self.end_ts <= self.start_ts {
            0
        } else {
            self.end_ts - self.start_ts
        }
    }

    /// Clip the sample to `[from, to)`, returning `None` if nothing is left.
    pub fn clipped(self, from: Option<i64>, to: Option<i64>) -> (clipped: Option<Self>)
        ensures
            match clipped {
                Some(kept) => self.clipped_start(from) < self.clipped_end(to) && kept == (Sample {
                    start_ts: self.clipped_start(from) as i64,
                    end_ts: self.clipped_end(to) as i64,
                    watts: self.watts,
                }),
                None => self.clipped_end(to) <= self.clipped_start(from),
            },
    {
        let start: i64 = match from {
            Some(from) => if self.start_ts >= from {
                self.start_ts
            } else {
                from
            },
            None => self.start_ts,
        };
        let end: i64 = match to {
            Some(to) => if self.end_ts <= to {
                self.end_ts
            } else {
                to
            },
            None => self.end_ts,
        };
        if end > start {
            Some(Sample { start_ts: start, end_ts: end, watts: self.watts })
        } else {
            None
        }
    }
}

/// Clipping to a window a second time changes nothing.
pub proof fn clipping_is_idempotent<W>(sample: Sample<W>, from: Option<i64>, to: Option<i64>)
    requires
        sample.clipped_start(from) < sample.clipped_end(to),
    ensures
        ({
            let once = Sample {
                start_ts: sample.clipped_start(from) as i64,
                end_ts: sample.clipped_end(to) as i64,
                watts: sample.watts,
            };
            &&& once.clipped_start(from) == once.start_ts
            &&& once.clipped_end(to) == once.end_ts
            &&& once.length() <= sample.length()
        }),
{
}

/// The first instant and the end of the last instant that any sample covers; samples
/// without a duration cover nothing.
pub open spec fn span_of<W>(samples: Seq<Sample<W>>) -> Option<(int, int)>
    decreases samples.len(),
{
    if samples.len() == 0 {
        None
    } else {
        let sample = samples.last();
        let rest = span_of(samples.drop_last());
        if sample.end_ts <= sample.start_ts {
            rest
        } else {
            match rest {
                None => Some((sample.start_ts as int, sample.end_ts as int)),
                Some((first, last)) => Some(
                    (earlier(first, sample.start_ts as int), later(last, sample.end_ts as int)),
                ),
            }
        }
    }
}

/// The first instant and the end of the last instant that any sample covers.
pub fn observed_span<W>(samples: &[Sample<W>]) -> (span: Option<(i64, i64)>)
    ensures
        match span {
            Some((first, last)) => span_of(samples@) == Some((first as int, last as int)),
            None => span_of(samples@) is None,
        },
        span matches Some((first, last)) ==> first < last,
{
    let mut span: Option<(i64, i64)> = None;
    let mut i: usize = 0;
    while i < samples.len()
        invariant
            i <= samples@.len(),
            match span {
                Some((first, last)) => span_of(samples@.take(i as int)) == Some(
                    (first as int, last as int),
                ),
                None => span_of(samples@.take(i as int)) is None,
            },
            span matches Some((first, last)) ==> first < last,
        decreases samples@.len() - i,
    {
        let (start, end) = (samples[i].start_ts, samples[i].end_ts);
        if start < end {
            span = match span {
                None => Some((start, end)),
                Some((first, last)) => Some(
                    (
                        if first <= start {
                            first
                        } else {
                            start
                        },
                        if last >= end {
                            last
                        } else {
                            end
                        },
                    ),
                ),
            };
        }
        proof {
            assert(samples@.take(i + 1).drop_last() =~= samples@.take(i as int));
        }
        i = i + 1;
    }
    proof {
        assert(samples@.take(i as int) =~= samples@);
    }
    span
}

/// The span of a set of samples is tight: it holds every sample with a duration, and some
/// sample begins and some sample ends exactly at its bounds. Only samples without any
/// duration have no span.
pub proof fn the_span_is_tight<W>(samples: Seq<Sample<W>>)
    ensures
        match span_of(samples) {
            None => forall|i: int|
                0 <= i < samples.len() ==> (#[trigger] samples[i]).end_ts <= samples[i].start_ts,
            Some((first, last)) => {
                &&& forall|i: int|
                    0 <= i < samples.len() && (#[trigger] samples[i]).start_ts < samples[i].end_ts
                        ==> first <= samples[i].start_ts && samples[i].end_ts <= last
                &&& exists|i: int|
                    0 <= i < samples.len() && (#[trigger] samples[i]).start_ts == first
                        && samples[i].start_ts < samples[i].end_ts
                &&& exists|i: int|
                    0 <= i < samples.len() && (#[trigger] samples[i]).end_ts == last
                        && samples[i].start_ts < samples[i].end_ts
            },
        },
    decreases samples.len(),
{
    if samples.len() > 0 {
        let rest = samples.drop_last();
        the_span_is_tight(rest);
        assert forall|i: int| 0 <= i < rest.len() implies #[trigger] samples[i] == rest[i] by {}
        let end = samples.len() - 1;
        assert(samples[end] == samples.last());
        if let Some((first, last)) = span_of(rest) {
            let i = choose|i: int|
                0 <= i < rest.len() && (#[trigger] rest[i]).start_ts == first && rest[i].start_ts
                    < rest[i].end_ts;
            let j = choose|j: int|
                0 <= j < rest.len() && (#[trigger] rest[j]).end_ts == last && rest[j].start_ts
                    < rest[j].end_ts;
            assert(samples[i] == rest[i]);
            assert(samples[j] == rest[j]);
        }
    }
}

/// Seconds the samples were in effect, all together.
pub open spec fn total_length<W>(samples: Seq<Sample<W>>) -> int
    decreases samples.len(),
{
    if samples.len() == 0 {
        0
    } else {
        total_length(samples.drop_last()) + samples.last().length()
    }
}

/// However long the samples are, 128 bits hold their length all together.
pub proof fn total_length_fits<W>(samples: Seq<Sample<W>>)
    requires
        samples.len() <= usize::MAX,
    ensures
        total_length(samples) <= samples.len() * u64::MAX,
        total_length(samples) <= u128::MAX,
    decreases samples.len(),
{
    if samples.len() > 0 {
        total_length_fits(samples.drop_last());
    }
    assert(samples.len() * u64::MAX <= u128::MAX) by (nonlinear_arith)
        requires
            samples.len() <= u64::MAX,
    ;
}

/// A part of the samples is no longer than all of them.
pub proof fn total_length_is_monotone<W>(samples: Seq<Sample<W>>, from: int, to: int)
    requires
        0 <= from <= to <= samples.len(),
    ensures
        0 <= total_length(samples.subrange(from, to)) <= total_length(samples),
        total_length(samples.take(from)) + total_length(samples.subrange(from, to))
            == total_length(samples.take(to)),
    decreases samples.len(), to - from,
{
    if samples.len() > 0 && to == samples.len() {
        if from < to {
            total_length_is_monotone(samples.drop_last(), from, to - 1);
            assert(samples.subrange(from, to).drop_last() =~= samples.drop_last().subrange(
                from,
                to - 1,
            ));
            assert(samples.drop_last().take(from) =~= samples.take(from));
            assert(samples.drop_last().take(to - 1) =~= samples.drop_last());
            assert(samples.take(to) =~= samples);
        } else {
            total_length_is_monotone(samples.drop_last(), 0, to - 1);
            assert(samples.drop_last().subrange(0, to - 1) =~= samples.drop_last());
            assert(samples.subrange(from, to) =~= Seq::empty());
        }
    } else if samples.len() > 0 {
        total_length_is_monotone(samples.drop_last(), from, to);
        assert(samples.subrange(from, to) =~= samples.drop_last().subrange(from, to));
        assert(samples.drop_last().take(from) =~= samples.take(from));
        assert(samples.drop_last().take(to) =~= samples.take(to));
    } else {
        assert(samples.subrange(from, to) =~= Seq::empty());
        assert(samples.take(from) =~= Seq::empty());
        assert(samples.take(to) =~= Seq::empty());
    }
}

/// How the year is sliced into facets: one heatmap per calendar month or per ISO week.
#[derive(Debug, Clone, Copy, PartialEq, Eq, Structural)]
pub enum Grouping {
    Month,
    Week,
}

/// The English name of a month, counted from 0.
pub open spec fn month_text(index: int) -> Seq<char> {
    if index == 0 {
        "January"@
    } else if index == 1 {
        "February"@
    } else if index == 2 {
        "March"@
    } else if index == 3 {
        "April"@
    } else if index == 4 {
        "May"@
    } else if index == 5 {
        "June"@
    } else if index == 6 {
        "July"@
    } else if index == 7 {
        "August"@
    } else if index == 8 {
        "September"@
    } else if index == 9 {
        "October"@
    } else if index == 10 {
        "November"@
    } else {
        "December"@
    }
}

fn month_name(index: usize) -> (name: Option<&'static str>)
    ensures
        name is Some <==> index < 12,
        name matches Some(name) ==> name@ == month_text(index as int) && name@.len() >= 3,
{
    proof {
        reveal_strlit("January");
        reveal_strlit("February");
        reveal_strlit("March");
        reveal_strlit("April");
        reveal_strlit("May");
        reveal_strlit("June");
        reveal_strlit("July");
        reveal_strlit("August");
        reveal_strlit("September");
        reveal_strlit("October");
        reveal_strlit("November");
        reveal_strlit("December");
    }
    match index {
        0 => Some("January"),
        1 => Some("February"),
        2 => Some("March"),
        3 => Some("April"),
        4 => Some("May"),
        5 => Some("June"),
        6 => Some("July"),
        7 => Some("August"),
        8 => Some("September"),
        9 => Some("October"),
        10 => Some("November"),
        11 => Some("December"),
        _ => None,
    }
}

impl Grouping {
    /// Number of facets a grid reserves for this grouping.
    pub open spec fn facets(self) -> nat {
        match self {
            Grouping::Month => 12,
            Grouping::Week => 53,
        }
    }

    /// The facet a local instant belongs to.
    pub open spec fn facet_of(self, parts: LocalParts) -> Option<usize> {
        let one_based = match self {
            Grouping::Month => parts.month,
            Grouping::Week => parts.iso_week,
        };
        if 1 <= one_based <= self.facets() {
            Some((one_based - 1) as usize)
        } else {
            None
        }
    }

    /// The label of a facet.
    pub open spec fn label_text(self, index: int) -> Seq<char> {
        match self {
            Grouping::Month => if index < 12 {
                month_text(index)
            } else {
                "Month "@ + text::decimal((index + 1) as nat)
            },
            Grouping::Week => "Week "@ + text::two_digits((index + 1) as nat),
        }
    }

    /// The short label of a facet.
    pub open spec fn short_label_text(self, index: int) -> Seq<char> {
        match self {
            Grouping::Month => if index < 12 {
                month_text(index).take(3)
            } else {
                "M"@ + text::decimal((index + 1) as nat)
            },
            Grouping::Week => "W"@ + text::two_digits((index + 1) as nat),
        }
    }

    /// The word the command line and the reports use.
    pub open spec fn word(self) -> Seq<char> {
        match self {
            Grouping::Month => "month"@,
            Grouping::Week => "week"@,
        }
    }

    /// Number of facets a grid reserves for this grouping.
    pub fn facet_count(self) -> (count: usize)
        ensures
            count == self.facets(),
    {
        match self {
            Grouping::Month => 12,
            // ISO weeks run 1..=53.
            Grouping::Week => 53,
        }
    }

    /// Facet index for a local instant, or `None` if it falls outside the range.
    pub fn facet_index(self, parts: &LocalParts) -> (index: Option<usize>)
        ensures
            index == self.facet_of(*parts),
    {
        let one_based: usize = match self {
            Grouping::Month => parts.month as usize,
            Grouping::Week => parts.iso_week as usize,
        };
        if 1 <= one_based && one_based <= self.facet_count() {
            Some(one_based - 1)
        } else {
            None
        }
    }

    /// Human readable facet label, e.g. `June` or `Week 23`.
    pub fn facet_label(self, index: usize) -> (label: String)
        requires
            index < usize::MAX,
        ensures
            label@ == self.label_text(index as int),
    {
        match self {
            Grouping::Month => match month_name(index) {
                Some(name) => String::from_str(name),
                None => {
                    let mut label: String = String::from_str("Month ");
                    text::push_number(&mut label, index as u64 + 1);
                    label
                },
            },
            Grouping::Week => {
                let mut label: String = String::from_str("Week ");
                text::push_two_digits(&mut label, index as u64 + 1);
                label
            },
        }
    }

    /// Short facet label used where space is tight.
    pub fn facet_short_label(self, index: usize) -> (label: String)
        requires
            index < usize::MAX,
        ensures
            label@ == self.short_label_text(index as int),
    {
        match self {
            Grouping::Month => match month_name(index) {
                Some(name) => {
                    let chars: Vec<char> = text::characters(name);
                    proof {
                        assert(chars@.subrange(0, 3) =~= chars@.take(3));
                    }
                    text::slice_text(chars.as_slice(), 0, 3)
                },
                None => {
                    let mut label: String = String::from_str("M");
                    text::push_number(&mut label, index as u64 + 1);
                    label
                },
            },
            Grouping::Week => {
                let mut label: String = String::from_str("W");
                text::push_two_digits(&mut label, index as u64 + 1);
                label
            },
        }
    }

    /// `month` or `week`.
    pub fn to_string(&self) -> (word: String)
        ensures
            word@ == self.word(),
    {
        match self {
            Grouping::Month => String::from_str("month"),
            Grouping::Week => String::from_str("week"),
        }
    }
}

/// A part of a whole, exactly.
#[derive(Debug, Clone, Copy, PartialEq, Eq, Structural)]
pub struct Share {
    pub part: u64,
    pub whole: u64,
}

/// Whether a cell states "at least this much power" or "exactly this much power".
#[derive(Debug, Clone, Copy, PartialEq, Eq, Structural)]
pub enum Metric {
    /// `P(watts >= bucket lower edge)` — the default, and what makes the plot a flame.
    Exceedance,
    /// `P(bucket lower edge <= watts < upper edge)`.
    Density,
}

impl Metric {
    /// The word the command line and the reports use.
    pub open spec fn word(self) -> Seq<char> {
        match self {
            Metric::Exceedance => "exceedance"@,
            Metric::Density => "density"@,
        }
    }

    /// `exceedance` or `density`.
    pub fn to_string(&self) -> (word: String)
        ensures
            word@ == self.word(),
    {
        match self {
            Metric::Exceedance => String::from_str("exceedance"),
            Metric::Density => String::from_str("density"),
        }
    }
}

/// What has to be known of a requested watt axis before it can be built.
#[derive(Debug, Clone, Copy, PartialEq, Eq, Structural)]
pub struct AxisRequest {
    /// The step is a finite number above zero.
    pub step_is_positive: bool,
    /// The maximum is a finite number above zero.
    pub maximum_is_positive: bool,
    /// The maximum is at least one step.
    pub maximum_holds_a_step: bool,
    /// How many steps it takes to reach the maximum, a last partial one included.
    pub steps: usize,
}

/// Why a watt axis was refused.
#[derive(Debug, Clone, Copy, PartialEq, Eq, Structural)]
pub enum AxisError {
    /// `--step-watts` must be a positive number.
    StepNotPositive,
    /// `--max-watts` must be a positive number.
    MaximumNotPositive,
    /// `--max-watts` must be at least one step.
    MaximumBelowStep,
}

impl AxisError {
    /// What to tell the user, given the step and the maximum as they were asked for.
    pub open spec fn text(self, step: Seq<char>, maximum: Seq<char>) -> Seq<char> {
        match self {
            AxisError::StepNotPositive => "--step-watts must be a positive number"@,
            AxisError::MaximumNotPositive => "--max-watts must be a positive number"@,
            AxisError::MaximumBelowStep => "--max-watts ("@ + maximum + ") must be at least one step ("@
                + step + ")"@,
        }
    }

    /// What to tell the user.
    pub fn message(self, step: &str, maximum: &str) -> (message: String)
        ensures
            message@ == self.text(step@, maximum@),
    {
        match self {
            AxisError::StepNotPositive => String::from_str("--step-watts must be a positive number"),
            AxisError::MaximumNotPositive => String::from_str(
                "--max-watts must be a positive number",
            ),
            AxisError::MaximumBelowStep => {
                let mut message: String = String::from_str("--max-watts (");
                message.append(maximum);
                message.append(") must be at least one step (");
                message.append(step);
                message.append(")");
                message
            },
        }
    }
}

/// The watt axis: bins of one step each, the last one collecting everything above the
/// configured maximum.
#[derive(Debug, Clone, Copy, PartialEq, Eq, Structural)]
pub struct BucketSpec {
    n_buckets: usize,
}

impl BucketSpec {
    /// The number of buckets.
    pub closed spec fn count(self) -> nat {
        self.n_buckets as nat
    }

    /// An axis has at least the open-ended bucket.
    pub open spec fn wf(self) -> bool {
        self.count() >= 1
    }

    /// The bucket that lies `steps` whole steps up the axis, the last one collecting all
    /// that lies above it.
    pub open spec fn bucket(self, steps: int) -> int {
        earlier(steps, self.count() - 1)
    }

    /// Build a bucket axis from a request.
    pub fn new(request: &AxisRequest) -> (result: Result<Self, AxisError>)
        requires
            request.steps < usize::MAX,
        ensures
            match result {
                Ok(axis) => request.step_is_positive && request.maximum_is_positive
                    && request.maximum_holds_a_step && axis.count() == request.steps + 1,
                Err(AxisError::StepNotPositive) => !request.step_is_positive,
                Err(AxisError::MaximumNotPositive) => request.step_is_positive
                    && !request.maximum_is_positive,
                Err(AxisError::MaximumBelowStep) => request.step_is_positive
                    && request.maximum_is_positive && !request.maximum_holds_a_step,
            },
            result matches Ok(axis) ==> axis.wf(),
    {
        if !request.step_is_positive {
            return Err(AxisError::StepNotPositive);
        }
        if !request.maximum_is_positive {
            return Err(AxisError::MaximumNotPositive);
        }
        if !request.maximum_holds_a_step {
            return Err(AxisError::MaximumBelowStep);
        }
        // One bucket per step plus the final open-ended bucket at the maximum.
        Ok(BucketSpec { n_buckets: request.steps + 1 })
    }

    pub fn len(&self) -> (count: usize)
        ensures
            count == self.count(),
    {
        self.n_buckets
    }

    pub fn is_empty(&self) -> (empty: bool)
        ensures
            empty == (self.count() == 0),
    {
        self.n_buckets == 0
    }

    /// Bucket index for a reading that lies `steps` whole steps above zero. Readings above
    /// the axis land in the final open-ended bucket.
    pub fn index(&self, steps: u64) -> (bucket: usize)
        requires
            self.wf(),
        ensures
            bucket == self.bucket(steps as int),
    {
        let last: usize = self.n_buckets - 1;
        if steps < last as u64 {
            steps as usize
        } else {
            last
        }
    }

    /// The lowest bucket whose lower edge is at least `steps` steps, where a partial step
    /// counts as a whole one; the open-ended bucket when the axis does not reach that far.
    pub fn bucket_at_least(&self, steps: u64) -> (bucket: usize)
        requires
            self.wf(),
        ensures
            bucket == self.bucket(steps as int),
    {
        self.index(steps)
    }
}

/// A stretch of consecutive local days, the days a grid keeps account of.
#[derive(Debug, Clone, Copy, PartialEq, Eq, Structural)]
pub struct DayWindow {
    first: DayNumber,
    len: usize,
}

impl DayWindow {
    /// The first day.
    pub closed spec fn first_day(self) -> int {
        self.first as int
    }

    /// The number of days.
    pub closed spec fn count(self) -> nat {
        self.len as nat
    }

    /// Whether a day lies in the window.
    pub open spec fn covers(self, day: int) -> bool {
        self.first_day() <= day < self.first_day() + self.count()
    }

    /// A window of `len` days from `first` on.
    pub fn new(first: DayNumber, len: usize) -> (window: Self)
        ensures
            window.first_day() == first,
            window.count() == len,
    {
        DayWindow { first, len }
    }

    /// The window of a history without a single sample: one day that nothing falls on.
    pub fn empty() -> (window: Self)
        ensures
            window.first_day() == 0,
            window.count() == 1,
    {
        DayWindow { first: 0, len: 1 }
    }

    /// The local days from the one of `first_ts` to the one of `last_ts`, at least one.
    pub fn from_span(first_ts: i64, last_ts: i64, tz: &Zone) -> (window: Self)
        ensures
            ({
                let first = crate::timeutil::local_time_at(tz@, first_ts as int).parts.day;
                let last = crate::timeutil::local_time_at(tz@, last_ts as int).parts.day;
                &&& window.first_day() == first
                &&& window.count() == later(last - first + 1, 1)
            }),
            1 <= window.count() <= u32::MAX,
    {
        let first: DayNumber = crate::timeutil::local_day(first_ts, tz);
        let last: DayNumber = crate::timeutil::local_day(last_ts, tz);
        let len: usize = if last >= first {
            (last - first + 1) as usize
        } else {
            1
        };
        DayWindow { first, len }
    }

    pub fn len(&self) -> (count: usize)
        ensures
            count == self.count(),
    {
        self.len
    }

    /// Position of a day in the window, or `None` outside it.
    pub fn position(&self, day: DayNumber) -> (position: Option<usize>)
        ensures
            match position {
                Some(position) => self.covers(day as int) && position == day - self.first_day(),
                None => !self.covers(day as int),
            },
    {
        if day < self.first {
            return None;
        }
        let offset: u64 = (day as i64 - self.first as i64) as u64;
        if offset < self.len as u64 {
            Some(offset as usize)
        } else {
            None
        }
    }
}

/// A window is told by its first day and its number of days.
pub proof fn windows_are_told_by_their_days(left: DayWindow, right: DayWindow)
    requires
        left.first_day() == right.first_day(),
        left.count() == right.count(),
    ensures
        left == right,
{
}

pub const HOURS_PER_DAY: usize = 24;

/// Clipping keeps exactly the instants of a sample that lie in the window, and nothing is
/// left of it exactly when there are none.
pub proof fn clipping_keeps_the_instants_of_the_window<W>(
    sample: Sample<W>,
    from: Option<i64>,
    to: Option<i64>,
    instant: int,
)
    ensures
        sample.clipped_start(from) <= instant < sample.clipped_end(to) <==> sample.start_ts
            <= instant < sample.end_ts && (from matches Some(from) ==> from <= instant) && (
        to matches Some(to) ==> instant < to),
        i64::MIN <= sample.clipped_start(from) <= i64::MAX,
        i64::MIN <= sample.clipped_end(to) <= i64::MAX,
{
}

/// Samples last as long as their intervals, all together: lists add up, a single sample
/// lasts from its start to its end, and one that ends before it starts not at all.
pub proof fn lengths_add_up<W>(first: Seq<Sample<W>>, second: Seq<Sample<W>>)
    ensures
        total_length(first + second) == total_length(first) + total_length(second),
        first.len() == 0 ==> total_length(first) == 0,
        first.len() == 1 && first[0].start_ts <= first[0].end_ts ==> total_length(first)
            == first[0].end_ts - first[0].start_ts,
        first.len() == 1 && first[0].end_ts <= first[0].start_ts ==> total_length(first) == 0,
    decreases second.len(),
{
    if second.len() > 0 {
        lengths_add_up(first, second.drop_last());
        assert((first + second).drop_last() =~= first + second.drop_last());
    } else {
        assert(first + second =~= first);
        if first.len() == 1 {
            assert(first.drop_last() =~= Seq::empty());
            assert(total_length(first.drop_last()) == 0);
        }
    }
}

/// A local instant belongs to the facet of its month, or of its ISO week: facets count from
/// 0 where the calendar counts from 1, and no two months or weeks share one.
pub proof fn facets_follow_the_calendar(parts: LocalParts, other: LocalParts)
    requires
        1 <= parts.month <= 12,
        1 <= other.month <= 12,
        1 <= parts.iso_week <= 53,
        1 <= other.iso_week <= 53,
    ensures
        Grouping::Month.facet_of(parts) matches Some(facet) && facet + 1 == parts.month && facet
            < Grouping::Month.facets(),
        Grouping::Week.facet_of(parts) matches Some(facet) && facet + 1 == parts.iso_week && facet
            < Grouping::Week.facets(),
        Grouping::Month.facet_of(parts) == Grouping::Month.facet_of(other) <==> parts.month
            == other.month,
        Grouping::Week.facet_of(parts) == Grouping::Week.facet_of(other) <==> parts.iso_week
            == other.iso_week,
{
}

/// The facets of the months are named after them, in the order of the calendar.
pub proof fn months_are_named_in_calendar_order()
    ensures
        Grouping::Month.label_text(0) == "January"@,
        Grouping::Month.label_text(1) == "February"@,
        Grouping::Month.label_text(2) == "March"@,
        Grouping::Month.label_text(3) == "April"@,
        Grouping::Month.label_text(4) == "May"@,
        Grouping::Month.label_text(5) == "June"@,
        Grouping::Month.label_text(6) == "July"@,
        Grouping::Month.label_text(7) == "August"@,
        Grouping::Month.label_text(8) == "September"@,
        Grouping::Month.label_text(9) == "October"@,
        Grouping::Month.label_text(10) == "November"@,
        Grouping::Month.label_text(11) == "December"@,
        forall|i: int|
            0 <= i < 12 ==> #[trigger] Grouping::Month.short_label_text(i)
                == Grouping::Month.label_text(i).subrange(0, 3),
{
    assert forall|i: int| 0 <= i < 12 implies #[trigger] Grouping::Month.short_label_text(i)
        == Grouping::Month.label_text(i).subrange(0, 3) by {
        assert(Grouping::Month.short_label_text(i) =~= Grouping::Month.label_text(i).subrange(
            0,
            3,
        ));
    }
}

/// A week is labelled with its number in the calendar, in two digits.
pub proof fn weeks_are_numbered_as_in_the_calendar(index: int)
    requires
        0 <= index < 53,
    ensures
        ({
            let (tens, ones) = ((index + 1) / 10, (index + 1) % 10);
            let digits = seq![(48 + tens) as char, (48 + ones) as char];
            &&& Grouping::Week.label_text(index) == "Week "@ + digits
            &&& Grouping::Week.short_label_text(index) == "W"@ + digits
        }),
{
    let n = (index + 1) as nat;
    let digits = seq![(48 + n / 10) as char, (48 + n % 10) as char];
    if n >= 10 {
        assert(text::decimal(n / 10) =~= seq![text::digit(n / 10)]);
        assert(text::decimal(n) =~= digits);
    }
    assert(text::two_digits(n) =~= digits);
}

/// A reading lands in the bucket of its step, and only one that lies beyond the axis lands
/// in the last, open-ended one instead. So no bucket at or above a step lies below the one
/// chosen for it.
pub proof fn readings_land_in_the_bucket_of_their_step(axis: BucketSpec, steps: int, other: int)
    requires
        axis.wf(),
        steps >= 0,
    ensures
        0 <= axis.bucket(steps) < axis.count(),
        steps < axis.count() ==> axis.bucket(steps) == steps,
        steps >= axis.count() ==> axis.bucket(steps) + 1 == axis.count(),
        steps <= other < axis.count() ==> axis.bucket(steps) <= other,
        steps <= other ==> axis.bucket(steps) <= axis.bucket(other),
{
}

/// Of two numbers the earlier is no larger than either and the later no smaller, and each is
/// one of the two.
pub proof fn earlier_and_later_pick_one(a: int, b: int)
    ensures
        earlier(a, b) <= a,
        earlier(a, b) <= b,
        earlier(a, b) == a || earlier(a, b) == b,
        later(a, b) >= a,
        later(a, b) >= b,
        later(a, b) == a || later(a, b) == b,
        earlier(a, b) + later(a, b) == a + b,
{
}

/// A sample lasts from its start to its end, and for nothing where it ends before it starts.
pub proof fn samples_last_from_start_to_end<W>(sample: Sample<W>)
    ensures
        sample.start_ts <= sample.end_ts ==> sample.length() == sample.end_ts - sample.start_ts,
        sample.start_ts > sample.end_ts ==> sample.length() == 0,
{
}

/// A window covers as many days as it has, from its first on, and none before or behind.
pub proof fn windows_cover_their_days(window: DayWindow, day: int)
    ensures
        window.count() > 0 ==> window.covers(window.first_day()),
        window.count() > 0 ==> window.covers(window.first_day() + window.count() - 1),
        !window.covers(window.first_day() - 1),
        !window.covers(window.first_day() + window.count()),
        window.covers(day) <==> day >= window.first_day() && day - window.first_day()
            < window.count(),
{
}

/// A year has twelve months and up to fifty-three ISO weeks, and each has its facet; a number
/// beyond them has none, and is labelled by its number alone.
pub proof fn years_have_their_months_and_weeks(parts: LocalParts, index: int)
    requires
        index >= 12,
    ensures
        Grouping::Month.facet_of(parts) is Some <==> 1 <= parts.month <= 12,
        Grouping::Week.facet_of(parts) is Some <==> 1 <= parts.iso_week <= 53,
        Grouping::Month.facets() == 12,
        Grouping::Week.facets() == 53,
        text::has_suffix(Grouping::Month.label_text(index), text::decimal((index + 1) as nat)),
        text::has_suffix(
            Grouping::Month.short_label_text(index),
            text::decimal((index + 1) as nat),
        ),
{
    let number = text::decimal((index + 1) as nat);
    let (label, short) = (
        Grouping::Month.label_text(index),
        Grouping::Month.short_label_text(index),
    );
    assert(label.skip(label.len() - number.len()) =~= number);
    assert(short.skip(short.len() - number.len()) =~= number);
}

} // verus!
