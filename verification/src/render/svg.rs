//! Drawing one facet as an SVG heatmap.
//!
//! Cells are emitted run-length encoded: consecutive buckets in an hour column that land
//! on the same colour level become a single `<rect>`, and cells below the visibility
//! threshold are not emitted at all. A year of 50 W buckets is 12 x 24 x ~150 cells, which
//! would otherwise be a very large file for something that reads as a handful of bands.
//!
//! The plot is 480 user units wide and 260 high, with margins of 46, 8, 24 and 54 units on
//! the left, right, top and bottom; an hour column is 20 units wide. Positions that depend
//! on power come in as formatted numbers.

use vstd::prelude::*;

use crate::analysis::{ColumnStatus, Facet};
use crate::model::{BucketSpec, Metric, HOURS_PER_DAY};
use crate::render;
use crate::render::color;
use crate::text;

verus! {

/// Id of the shared "not enough data" hatch pattern defined once per page.
pub const NO_DATA_PATTERN_ID: &'static str = "pv-no-data";

/// Rendering knobs shared by every facet on a page.
#[derive(Debug, Clone, Copy, PartialEq, Eq)]
pub struct SvgOptions {
    pub levels: usize,
    pub metric: Metric,
}

impl SvgOptions {
    /// Lowest bucket worth drawing.
    pub open spec fn lowest_drawn(self, buckets: BucketSpec) -> int {
        match self.metric {
            Metric::Exceedance => if buckets.count() >= 2 {
                1
            } else {
                0
            },
            Metric::Density => 0,
        }
    }

    /// Lowest bucket worth drawing.
    ///
    /// "At least 0 W" is true whenever the hour was observed at all, so drawing it would
    /// paint a certainty band across the night. The exceedance plot therefore starts one
    /// step up, at "at least one bucket of power".
    pub fn first_bucket(&self, buckets: &BucketSpec) -> (bucket: usize)
        ensures
            bucket == self.lowest_drawn(*buckets),
    {
        match self.metric {
            Metric::Exceedance => if buckets.len() >= 2 {
                1
            } else {
                0
            },
            Metric::Density => 0,
        }
    }
}

// ---------------------------------------------------------------------------------------
// Runs
// ---------------------------------------------------------------------------------------

/// A vertical run of buckets that share a colour level.
#[derive(Debug, Clone, Copy, PartialEq, Eq, Structural)]
pub struct Run {
    /// First bucket of the run.
    pub start: usize,
    /// Last bucket of the run, inclusive.
    pub end: usize,
    pub level: usize,
}

impl Run {
    /// Whether a bucket belongs to the run.
    pub open spec fn holds(self, bucket: int) -> bool {
        self.start <= bucket <= self.end
    }
}

/// Whether every bucket of a run lies in the column, from `first` up, and has its level.
pub open spec fn is_run(levels: Seq<Option<usize>>, first: int, run: Run) -> bool {
    &&& first <= run.start <= run.end < levels.len()
    &&& forall|bucket: int| run.holds(bucket) ==> #[trigger] levels[bucket] == Some(run.level)
}

/// Whether one run ends before another starts, with something other than their shared level
/// between them.
pub open spec fn apart(lower: Run, upper: Run) -> bool {
    &&& lower.end < upper.start
    &&& lower.end + 1 == upper.start ==> lower.level != upper.level
}

/// Whether a bucket belongs to one of the runs.
pub open spec fn in_a_run(runs: Seq<Run>, bucket: int) -> bool {
    exists|i: int| 0 <= i < runs.len() && (#[trigger] runs[i]).holds(bucket)
}

/// Whether runs are those of the buckets from `first` up to, but not including, `end`: each
/// of one level, as long as it can be, in order, and together every bucket with a level.
pub open spec fn are_runs(
    runs: Seq<Run>,
    levels: Seq<Option<usize>>,
    first: int,
    end: int,
) -> bool {
    &&& forall|i: int|
        0 <= i < runs.len() ==> is_run(levels, first, #[trigger] runs[i]) && runs[i].end < end
    &&& forall|i: int, j: int|
        0 <= i < j < runs.len() ==> (#[trigger] runs[i]).end < (#[trigger] runs[j]).start
    &&& forall|i: int| 0 < i < runs.len() ==> apart(#[trigger] runs[i - 1], runs[i])
    &&& forall|bucket: int|
        first <= bucket < end && (#[trigger] levels[bucket]) is Some ==> in_a_run(runs, bucket)
}

/// Group a column's cells into runs of equal colour level, skipping blank cells and
/// everything below `first_bucket`.
pub fn runs(levels: &[Option<usize>], first_bucket: usize) -> (runs: Vec<Run>)
    ensures
        are_runs(runs@, levels@, first_bucket as int, levels@.len() as int),
{
    let mut runs: Vec<Run> = Vec::new();
    let length: usize = levels.len();
    let mut bucket: usize = first_bucket;
    while bucket < length
        invariant
            length == levels@.len(),
            first_bucket <= bucket,
            bucket <= length || bucket == first_bucket,
            are_runs(runs@, levels@, first_bucket as int, bucket as int),
        decreases length - bucket,
    {
        let ghost before = runs@;
        if let Some(level) = levels[bucket] {
            let mut extended: bool = false;
            if runs.len() > 0 {
                let last: Run = runs[runs.len() - 1];
                if last.level == level && last.end + 1 == bucket {
                    let at: usize = runs.len() - 1;
                    runs.set(at, Run { start: last.start, end: bucket, level });
                    extended = true;
                    proof {
                        extending_keeps_runs(before, levels@, first_bucket as int, bucket, level);
                    }
                }
            }
            if !extended {
                runs.push(Run { start: bucket, end: bucket, level });
                proof {
                    starting_keeps_runs(before, levels@, first_bucket as int, bucket, level);
                }
            }
        } else {
            proof {
                assert forall|b: int|
                    first_bucket <= b < bucket + 1 && (
                    #[trigger] levels@[b]) is Some implies in_a_run(runs@, b) by {
                    assert(b < bucket);
                }
            }
        }
        bucket = bucket + 1;
    }
    proof {
        assert forall|b: int|
            first_bucket <= b < levels@.len() && (#[trigger] levels@[b]) is Some implies in_a_run(
            runs@,
            b,
        ) by {
            assert(b < bucket);
        }
        assert forall|i: int| 0 <= i < runs@.len() implies (#[trigger] runs@[i]).end
            < levels@.len() by {
            assert(is_run(levels@, first_bucket as int, runs@[i]));
        }
    }
    runs
}

proof fn extending_keeps_runs(
    runs: Seq<Run>,
    levels: Seq<Option<usize>>,
    first: int,
    bucket: usize,
    level: usize,
)
    requires
        runs.len() > 0,
        are_runs(runs, levels, first, bucket as int),
        first <= bucket < levels.len(),
        levels[bucket as int] == Some(level),
        runs.last().level == level,
        runs.last().end + 1 == bucket,
    ensures
        are_runs(
            runs.update(
                runs.len() - 1,
                Run { start: runs.last().start, end: bucket, level },
            ),
            levels,
            first,
            bucket + 1,
        ),
{
    let last = runs.len() - 1;
    let longer = Run { start: runs.last().start, end: bucket, level };
    let now = runs.update(last, longer);
    assert(is_run(levels, first, runs[last]));
    assert(is_run(levels, first, longer)) by {
        assert forall|b: int| longer.holds(b) implies #[trigger] levels[b] == Some(level) by {
            if b < bucket {
                assert(runs[last].holds(b));
            }
        }
    }
    assert forall|i: int| 0 <= i < now.len() implies is_run(levels, first, #[trigger] now[i])
        && now[i].end < bucket + 1 by {
        if i < last {
            assert(now[i] == runs[i]);
        }
    }
    assert forall|i: int, j: int| 0 <= i < j < now.len() implies (#[trigger] now[i]).end < (
    #[trigger] now[j]).start by {
        assert(now[i] == runs[i]);
        assert(runs[i].end < runs[j].start);
    }
    assert forall|i: int| 0 < i < now.len() implies apart(#[trigger] now[i - 1], now[i]) by {
        assert(now[i - 1] == runs[i - 1]);
        assert(apart(runs[i - 1], runs[i]));
    }
    assert forall|b: int|
        first <= b < bucket + 1 && (#[trigger] levels[b]) is Some implies in_a_run(now, b) by {
        if b < bucket {
            assert(in_a_run(runs, b));
            let i = choose|i: int| 0 <= i < runs.len() && (#[trigger] runs[i]).holds(b);
            assert(now[i].holds(b));
        } else {
            assert(now[last].holds(b));
        }
    }
}

proof fn starting_keeps_runs(
    runs: Seq<Run>,
    levels: Seq<Option<usize>>,
    first: int,
    bucket: usize,
    level: usize,
)
    requires
        are_runs(runs, levels, first, bucket as int),
        first <= bucket < levels.len(),
        levels[bucket as int] == Some(level),
        runs.len() > 0 ==> !(runs.last().level == level && runs.last().end + 1 == bucket),
    ensures
        are_runs(
            runs.push(Run { start: bucket, end: bucket, level }),
            levels,
            first,
            bucket + 1,
        ),
{
    let single = Run { start: bucket, end: bucket, level };
    let now = runs.push(single);
    assert(is_run(levels, first, single));
    assert forall|i: int| 0 <= i < now.len() implies is_run(levels, first, #[trigger] now[i])
        && now[i].end < bucket + 1 by {
        if i < runs.len() {
            assert(now[i] == runs[i]);
        }
    }
    assert forall|i: int, j: int| 0 <= i < j < now.len() implies (#[trigger] now[i]).end < (
    #[trigger] now[j]).start by {
        assert(now[i] == runs[i]);
        if j < runs.len() {
            assert(now[j] == runs[j]);
        }
    }
    assert forall|i: int| 0 < i < now.len() implies apart(#[trigger] now[i - 1], now[i]) by {
        assert(now[i - 1] == runs[i - 1]);
        if i < runs.len() {
            assert(apart(runs[i - 1], runs[i]));
            assert(now[i] == runs[i]);
        } else {
            assert(runs[i - 1] == runs.last());
        }
    }
    assert forall|b: int|
        first <= b < bucket + 1 && (#[trigger] levels[b]) is Some implies in_a_run(now, b) by {
        if b < bucket {
            assert(in_a_run(runs, b));
            let i = choose|i: int| 0 <= i < runs.len() && (#[trigger] runs[i]).holds(b);
            assert(now[i].holds(b));
        } else {
            assert(now[runs.len() as int].holds(b));
        }
    }
}

/// The runs of a column draw exactly the cells that have a level: a cell is in a run if and
/// only if it is not blank, and in no more than one.
pub proof fn runs_draw_exactly_the_visible_cells(
    runs: Seq<Run>,
    levels: Seq<Option<usize>>,
    first: int,
    bucket: int,
)
    requires
        0 <= first <= bucket < levels.len(),
        are_runs(runs, levels, first, levels.len() as int),
    ensures
        in_a_run(runs, bucket) == (levels[bucket] is Some),
        forall|i: int, j: int|
            0 <= i < runs.len() && 0 <= j < runs.len() && (#[trigger] runs[i]).holds(bucket) && (
            #[trigger] runs[j]).holds(bucket) ==> i == j,
{
    if in_a_run(runs, bucket) {
        let i = choose|i: int| 0 <= i < runs.len() && (#[trigger] runs[i]).holds(bucket);
        assert(is_run(levels, first, runs[i]));
    }
    assert forall|i: int, j: int|
        0 <= i < runs.len() && 0 <= j < runs.len() && (#[trigger] runs[i]).holds(bucket) && (
        #[trigger] runs[j]).holds(bucket) implies i == j by {
        if i < j {
            assert(runs[i].end < runs[j].start);
        }
        if j < i {
            assert(runs[j].end < runs[i].start);
        }
    }
}

// ---------------------------------------------------------------------------------------
// Descriptions
// ---------------------------------------------------------------------------------------

/// The power that a run of cells stands for. `low` and `high` are the lower edges of its
/// first and last bucket, `above` the upper edge of its last.
pub open spec fn power_text(
    metric: Metric,
    run: Run,
    buckets: nat,
    low: Seq<char>,
    high: Seq<char>,
    above: Seq<char>,
) -> Seq<char> {
    match metric {
        Metric::Exceedance => if run.start == run.end {
            "at least "@ + low
        } else {
            "at least "@ + low + " to "@ + high
        },
        Metric::Density => if run.start == run.end && run.end + 1 == buckets {
            low + " and above"@
        } else {
            low + " to "@ + above
        },
    }
}

/// The power that a run of cells stands for, in words.
pub fn describe_power(
    metric: Metric,
    run: &Run,
    buckets: &BucketSpec,
    low: &str,
    high: &str,
    above: &str,
) -> (out: String)
    ensures
        out@ == power_text(metric, *run, buckets.count(), low@, high@, above@),
{
    let single: bool = run.start == run.end;
    let count: usize = buckets.len();
    match metric {
        Metric::Exceedance => {
            let mut out: String = String::from_str("at least ");
            out.append(low);
            if !single {
                out.append(" to ");
                out.append(high);
            }
            out
        },
        Metric::Density => {
            let mut out: String = String::from_str(low);
            if single && run.end < count && run.end + 1 == count {
                out.append(" and above");
            } else {
                out.append(" to ");
                out.append(above);
            }
            out
        },
    }
}

/// How likely a run of cells is: one figure where its ends are as good as equal, otherwise
/// both.
pub open spec fn chance_text(close: bool, lowest: Seq<char>, highest: Seq<char>) -> Seq<char> {
    if close {
        highest
    } else {
        lowest + " to "@ + highest
    }
}

/// How likely a run of cells is, in words.
pub fn describe_chance(close: bool, lowest: &str, highest: &str) -> (out: String)
    ensures
        out@ == chance_text(close, lowest@, highest@),
{
    if close {
        String::from_str(highest)
    } else {
        let mut out: String = String::from_str(lowest);
        out.append(" to ");
        out.append(highest);
        out
    }
}

/// Hover text for one run of cells.
pub open spec fn title_text(label: Seq<char>, hour: nat, power: Seq<char>, chance: Seq<char>) -> Seq<char> {
    label
        + " "@
        + text::two_digits(hour)
        + ":00 - "@
        + power
        + ": "@
        + chance
}

/// Hover text for one run of cells.
pub fn run_title(label: &str, hour: usize, power: &str, chance: &str) -> (out: String)
    ensures
        out@ == title_text(label@, hour as nat, power@, chance@),
{
    let mut out: String = String::from_str(label);
    out.append(" ");
    text::push_two_digits(&mut out, hour as u64);
    out.append(":00 - ");
    out.append(power);
    out.append(": ");
    out.append(chance);
    out
}

/// A mark together with the description that hovering it reveals.
pub open spec fn hoverable_text(mark: Seq<char>, description: Seq<char>) -> Seq<char> {
    "<g class=\"cell\">"@
        + mark
        + "<text class=\"readout\" x=\"46.0\" y=\"14.0\">"@
        + render::escaped(description)
        + "</text></g>"@
}

/// Wrap a mark so that hovering it reveals its description above the plot.
/// 
/// Native SVG `<title>` tooltips cannot be relied on: WebKit has never shown them, and in
/// Firefox an `svg` carrying `role="img"` hides its subtree from that machinery. So the
/// description is also drawn as a line of text in the margin above the plot, revealed by
/// a plain `:hover` rule - which every engine has supported for as long as it has
/// supported SVG at all. The `<title>` stays for assistive technology and for the
/// browsers that do show it.
/// 
/// Reading out above the plot rather than following the cursor is deliberate: it never
/// covers the cells being compared, and it cannot be clipped by the edge of the facet.
pub fn hoverable(mark: &str, description: &str) -> (out: String)
    ensures
        out@ == hoverable_text(mark@, description@),
{
    let mut out: String = String::from_str("<g class=\"cell\">");
    out.append(mark);
    out.append("<text class=\"readout\" x=\"46.0\" y=\"14.0\">");
    out.append(render::escape(description).as_str());
    out.append("</text></g>");
    out
}

/// Where an hour column starts, in user units.
pub open spec fn column_x(hour: nat) -> nat {
    46 + 20 * hour
}

// ---------------------------------------------------------------------------------------
// The coverage strip
// ---------------------------------------------------------------------------------------

/// The class of a cell of the coverage strip.
pub open spec fn strip_class(level: Option<usize>) -> Seq<char> {
    match level {
        Some(level) => "cov"@ + text::decimal(level as nat),
        None => "cov-none"@,
    }
}

fn class_of_strip(level: Option<usize>) -> (out: String)
    ensures
        out@ == strip_class(level),
{
    match level {
        Some(level) => {
            let mut out: String = String::from_str("cov");
            text::push_number(&mut out, level as u64);
            out
        },
        None => String::from_str("cov-none"),
    }
}

/// How many days back one hour.
pub open spec fn strip_note_text(label: Seq<char>, hour: nat, days: nat, possible: nat) -> Seq<char> {
    label
        + " "@
        + text::two_digits(hour)
        + ":00 - recorded on "@
        + text::decimal(days)
        + (if possible > 0 { " of "@
        + text::decimal(possible)
        + " days"@ } else { " days"@ })
}

/// How many days back one hour.
fn strip_note(label: &str, hour: usize, days: u32, possible: u32) -> (out: String)
    ensures
        out@ == strip_note_text(label@, hour as nat, days as nat, possible as nat),
{
    let part_1: String = if possible > 0 {
        let mut part: String = String::from_str(" of ");
        text::push_number(&mut part, possible as u64);
        part.append(" days");
        part
    } else {
        let mut part: String = String::from_str(" days");
        part
    };
    let mut out: String = String::from_str(label);
    out.append(" ");
    text::push_two_digits(&mut out, hour as u64);
    out.append(":00 - recorded on ");
    text::push_number(&mut out, days as u64);
    out.append(part_1.as_str());
    out
}

/// The rectangle of one hour of the coverage strip.
pub open spec fn strip_rect_text(class: Seq<char>, hour: nat, note: Seq<char>) -> Seq<char> {
    "<rect class=\""@
        + class
        + "\" x=\""@
        + text::decimal(column_x(hour))
        + ".0\" y=\"295.0\" width=\"20.0\" height=\"7.0\"><title>"@
        + render::escaped(note)
        + "</title></rect>"@
}

/// The rectangle of one hour of the coverage strip.
fn strip_rect(class: &str, hour: usize, note: &str) -> (out: String)
    requires
        hour < HOURS_PER_DAY,
    ensures
        out@ == strip_rect_text(class@, hour as nat, note@),
{
    let mut out: String = String::from_str("<rect class=\"");
    out.append(class);
    out.append("\" x=\"");
    text::push_number(&mut out, 46 + 20 * (hour as u64));
    out.append(".0\" y=\"295.0\" width=\"20.0\" height=\"7.0\"><title>");
    out.append(render::escape(note).as_str());
    out.append("</title></rect>");
    out
}

/// Whether a level is the one that a share of the calendar lands on.
pub open spec fn is_strip_level(level: Option<usize>, days: nat, possible: nat) -> bool {
    match level {
        Some(step) => days > 0 && color::is_coverage_step(days, possible, step as int),
        None => days == 0,
    }
}

/// The level that a share of the calendar lands on.
pub open spec fn strip_level(days: nat, possible: nat) -> Option<usize> {
    choose|level: Option<usize>| is_strip_level(level, days, possible)
}

/// One hour of the coverage strip.
pub open spec fn strip_cell_text(facet: Facet, hour: nat) -> Seq<char> {
    if hour < facet.columns@.len() {
        let (days, possible) = (
            facet.columns@[hour as int].days as nat,
            facet.possible_days as nat,
        );
        let note = strip_note_text(facet.label@, hour, days, possible);
        hoverable_text(
            strip_rect_text(strip_class(strip_level(days, possible)), hour, note),
            note,
        )
    } else {
        Seq::empty()
    }
}

/// One hour of the coverage strip.
fn strip_cell(facet: &Facet, hour: usize) -> (out: String)
    requires
        hour < HOURS_PER_DAY,
    ensures
        out@ == strip_cell_text(*facet, hour as nat),
{
    if hour >= facet.columns.len() {
        return String::new();
    }
    let days: u32 = facet.columns[hour].days;
    let level: Option<usize> = color::coverage_level(days, facet.possible_days);
    proof {
        let possible = facet.possible_days as nat;
        assert(is_strip_level(level, days as nat, possible));
        let chosen = strip_level(days as nat, possible);
        assert(is_strip_level(chosen, days as nat, possible));
        if days > 0 {
            color::coverage_steps_never_fall(
                days as nat,
                days as nat,
                possible,
                level->0 as int,
                chosen->0 as int,
            );
        }
        assert(level == chosen);
    }
    let note: String = strip_note(facet.label.as_str(), hour, days, facet.possible_days);
    let mark: String = strip_rect(class_of_strip(level).as_str(), hour, note.as_str());
    hoverable(mark.as_str(), note.as_str())
}

/// The first `hours` hours of the coverage strip.
pub open spec fn strip_cells_text(facet: Facet, hours: nat) -> Seq<char>
    decreases hours,
{
    if hours == 0 {
        Seq::empty()
    } else {
        strip_cells_text(facet, (hours - 1) as nat) + strip_cell_text(facet, (hours - 1) as nat)
    }
}

/// The row under the hour axis showing how many days back each hour.
pub open spec fn strip_text(facet: Facet) -> Seq<char> {
    "<g class=\"coverage\"><text class=\"strip-label\" x=\"41.0\" y=\"302.0\" text-anchor=\"end\">days</text>"@
        + strip_cells_text(facet, HOURS_PER_DAY as nat) + "</g>"@
}

/// The row under the hour axis showing how many days back each hour.
///
/// The heatmap says how likely the power was; this says how much history that claim
/// rests on. Without it a month assembled from three days looks exactly like a month
/// assembled from sixty.
pub fn coverage_strip(facet: &Facet) -> (out: String)
    ensures
        out@ == strip_text(*facet),
{
    let mut cells: String = String::new();
    let mut hour: usize = 0;
    while hour < HOURS_PER_DAY
        invariant
            hour <= HOURS_PER_DAY,
            cells@ == strip_cells_text(*facet, hour as nat),
        decreases HOURS_PER_DAY - hour,
    {
        cells.append(strip_cell(facet, hour).as_str());
        hour = hour + 1;
    }
    let mut out: String = String::from_str(
        "<g class=\"coverage\"><text class=\"strip-label\" x=\"41.0\" y=\"302.0\" text-anchor=\"end\">days</text>",
    );
    out.append(cells.as_str());
    out.append("</g>");
    out
}

// ---------------------------------------------------------------------------------------
// The plot
// ---------------------------------------------------------------------------------------

/// A gridline with its label.
#[derive(Debug)]
pub struct Tick {
    /// Vertical position of the line.
    pub y: String,
    /// Baseline of the label.
    pub label_y: String,
    pub label: String,
}

/// A run of cells as it is drawn.
#[derive(Debug)]
pub struct RunMark {
    pub level: usize,
    /// Top edge.
    pub y: String,
    pub height: String,
    /// What hovering it reveals.
    pub note: String,
}

/// Whether marks draw runs: one for each, in its level, placed and described as was given.
pub open spec fn are_marks_of(
    marks: Seq<RunMark>,
    runs: Seq<Run>,
    placed: Seq<(String, String, String)>,
) -> bool {
    &&& marks.len() == runs.len()
    &&& forall|i: int|
        0 <= i < marks.len() ==> {
            &&& (#[trigger] marks[i]).level == runs[i].level
            &&& marks[i].y@ == placed[i].0@
            &&& marks[i].height@ == placed[i].1@
            &&& marks[i].note@ == placed[i].2@
        }
}

/// The runs of a column as they are drawn, given the top edge, the height and the note of
/// each.
pub fn mark_runs(runs: &[Run], placed: Vec<(String, String, String)>) -> (marks: Vec<RunMark>)
    requires
        runs@.len() == placed@.len(),
    ensures
        are_marks_of(marks@, runs@, placed@),
{
    let mut marks: Vec<RunMark> = Vec::new();
    let mut i: usize = 0;
    while i < runs.len()
        invariant
            i <= runs@.len(),
            runs@.len() == placed@.len(),
            are_marks_of(marks@, runs@.take(i as int), placed@),
        decreases runs@.len() - i,
    {
        marks.push(
            RunMark {
                level: runs[i].level,
                y: placed[i].0.clone(),
                height: placed[i].1.clone(),
                note: placed[i].2.clone(),
            },
        );
        i = i + 1;
    }
    assert(runs@.take(i as int) =~= runs@);
    marks
}

/// A column is drawn cell by cell as its levels say: a cell with a level lies in the run of
/// exactly one mark, which has that level, and a blank cell in none.
pub proof fn marks_show_the_level_of_every_cell(
    marks: Seq<RunMark>,
    runs: Seq<Run>,
    placed: Seq<(String, String, String)>,
    levels: Seq<Option<usize>>,
    first: int,
    bucket: int,
)
    requires
        0 <= first <= bucket < levels.len(),
        are_runs(runs, levels, first, levels.len() as int),
        are_marks_of(marks, runs, placed),
    ensures
        levels[bucket] is None ==> !in_a_run(runs, bucket),
        levels[bucket] is Some ==> in_a_run(runs, bucket),
        forall|i: int|
            0 <= i < marks.len() && (#[trigger] runs[i]).holds(bucket) ==> levels[bucket] == Some(
                marks[i].level,
            ),
        forall|i: int, j: int|
            0 <= i < marks.len() && 0 <= j < marks.len() && (#[trigger] runs[i]).holds(bucket) && (
            #[trigger] runs[j]).holds(bucket) ==> i == j,
{
    runs_draw_exactly_the_visible_cells(runs, levels, first, bucket);
    assert forall|i: int|
        0 <= i < marks.len() && (#[trigger] runs[i]).holds(bucket) implies levels[bucket] == Some(
        marks[i].level,
    ) by {
        assert(is_run(levels, first, runs[i]));
    }
}

/// One gridline with its label.
pub open spec fn tick_text(tick: Tick) -> Seq<char> {
    "<line x1=\"46.0\" y1=\""@
        + tick.y@
        + "\" x2=\"526.0\" y2=\""@
        + tick.y@
        + "\"/><text class=\"tick\" x=\"41.0\" y=\""@
        + tick.label_y@
        + "\" text-anchor=\"end\">"@
        + render::escaped(tick.label@)
        + "</text>"@
}

/// One gridline with its label.
fn draw_tick(tick: &Tick) -> (out: String)
    ensures
        out@ == tick_text(*tick),
{
    let mut out: String = String::from_str("<line x1=\"46.0\" y1=\"");
    out.append(tick.y.as_str());
    out.append("\" x2=\"526.0\" y2=\"");
    out.append(tick.y.as_str());
    out.append("\"/><text class=\"tick\" x=\"41.0\" y=\"");
    out.append(tick.label_y.as_str());
    out.append("\" text-anchor=\"end\">");
    out.append(render::escape(tick.label.as_str()).as_str());
    out.append("</text>");
    out
}

/// The first `count` gridlines.
pub open spec fn ticks_text(ticks: Seq<Tick>, count: nat) -> Seq<char>
    decreases count,
{
    if count == 0 {
        Seq::empty()
    } else {
        ticks_text(ticks, (count - 1) as nat) + tick_text(ticks[count - 1])
    }
}

fn draw_ticks(ticks: &[Tick]) -> (out: String)
    ensures
        out@ == ticks_text(ticks@, ticks@.len()),
{
    let mut out: String = String::new();
    let mut i: usize = 0;
    while i < ticks.len()
        invariant
            i <= ticks@.len(),
            out@ == ticks_text(ticks@, i as nat),
        decreases ticks@.len() - i,
    {
        out.append(draw_tick(&ticks[i]).as_str());
        i = i + 1;
    }
    out
}

/// Why an hour that was never recorded has no cells.
pub open spec fn empty_note_text(label: Seq<char>, hour: nat) -> Seq<char> {
    label
        + " "@
        + text::two_digits(hour)
        + ":00 - never recorded"@
}

/// Why an hour that was never recorded has no cells.
fn empty_note(label: &str, hour: usize) -> (out: String)
    ensures
        out@ == empty_note_text(label@, hour as nat),
{
    let mut out: String = String::from_str(label);
    out.append(" ");
    text::push_two_digits(&mut out, hour as u64);
    out.append(":00 - never recorded");
    out
}

/// Why an hour with too little evidence has no cells.
pub open spec fn thin_note_text(label: Seq<char>, hour: nat, days: nat, possible: nat) -> Seq<char> {
    label
        + " "@
        + text::two_digits(hour)
        + ":00 - only "@
        + text::decimal(days)
        + " of "@
        + text::decimal(possible)
        + " days recorded, too thin to trust"@
}

/// Why an hour with too little evidence has no cells.
fn thin_note(label: &str, hour: usize, days: u32, possible: u32) -> (out: String)
    ensures
        out@ == thin_note_text(label@, hour as nat, days as nat, possible as nat),
{
    let mut out: String = String::from_str(label);
    out.append(" ");
    text::push_two_digits(&mut out, hour as u64);
    out.append(":00 - only ");
    text::push_number(&mut out, days as u64);
    out.append(" of ");
    text::push_number(&mut out, possible as u64);
    out.append(" days recorded, too thin to trust");
    out
}

/// A hatched hour column.
pub open spec fn hatched_text(class: Seq<char>, hour: nat, note: Seq<char>) -> Seq<char> {
    "<rect class=\""@
        + class
        + "\" x=\""@
        + text::decimal(column_x(hour))
        + ".0\" y=\"24.0\" width=\"20.0\" height=\"260.0\" fill=\"url(#"@
        + NO_DATA_PATTERN_ID@
        + ")\"><title>"@
        + render::escaped(note)
        + "</title></rect>"@
}

/// A hatched hour column.
fn hatched_rect(class: &str, hour: usize, note: &str) -> (out: String)
    requires
        hour < HOURS_PER_DAY,
    ensures
        out@ == hatched_text(class@, hour as nat, note@),
{
    let mut out: String = String::from_str("<rect class=\"");
    out.append(class);
    out.append("\" x=\"");
    text::push_number(&mut out, 46 + 20 * (hour as u64));
    out.append(".0\" y=\"24.0\" width=\"20.0\" height=\"260.0\" fill=\"url(#");
    out.append(NO_DATA_PATTERN_ID);
    out.append(")\"><title>");
    out.append(render::escape(note).as_str());
    out.append("</title></rect>");
    out
}

/// One run of cells.
pub open spec fn mark_text(mark: RunMark, hour: nat) -> Seq<char> {
    "<rect class=\"c"@
        + text::decimal(mark.level as nat)
        + "\" x=\""@
        + text::decimal(column_x(hour))
        + ".0\" y=\""@
        + mark.y@
        + "\" width=\"20.0\" height=\""@
        + mark.height@
        + "\"><title>"@
        + render::escaped(mark.note@)
        + "</title></rect>"@
}

/// One run of cells.
fn draw_mark(mark: &RunMark, hour: usize) -> (out: String)
    requires
        hour < HOURS_PER_DAY,
    ensures
        out@ == mark_text(*mark, hour as nat),
{
    let mut out: String = String::from_str("<rect class=\"c");
    text::push_number(&mut out, mark.level as u64);
    out.append("\" x=\"");
    text::push_number(&mut out, 46 + 20 * (hour as u64));
    out.append(".0\" y=\"");
    out.append(mark.y.as_str());
    out.append("\" width=\"20.0\" height=\"");
    out.append(mark.height.as_str());
    out.append("\"><title>");
    out.append(render::escape(mark.note.as_str()).as_str());
    out.append("</title></rect>");
    out
}

/// The first `count` runs of an hour column.
pub open spec fn marks_text(marks: Seq<RunMark>, hour: nat, count: nat) -> Seq<char>
    decreases count,
{
    if count == 0 {
        Seq::empty()
    } else {
        let mark = marks[count - 1];
        marks_text(marks, hour, (count - 1) as nat) + hoverable_text(
            mark_text(mark, hour),
            mark.note@,
        )
    }
}

fn draw_marks(marks: &[RunMark], hour: usize) -> (out: String)
    requires
        hour < HOURS_PER_DAY,
    ensures
        out@ == marks_text(marks@, hour as nat, marks@.len()),
{
    let mut out: String = String::new();
    let mut i: usize = 0;
    while i < marks.len()
        invariant
            i <= marks@.len(),
            hour < HOURS_PER_DAY,
            out@ == marks_text(marks@, hour as nat, i as nat),
        decreases marks@.len() - i,
    {
        let mark: String = draw_mark(&marks[i], hour);
        out.append(hoverable(mark.as_str(), marks[i].note.as_str()).as_str());
        i = i + 1;
    }
    out
}

/// One hour column: hatched where the evidence does not suffice, otherwise its runs.
pub open spec fn column_text(facet: Facet, marks: Seq<Vec<RunMark>>, hour: nat) -> Seq<char> {
    if hour < facet.columns@.len() {
        let column = facet.columns@[hour as int];
        match column.status {
            ColumnStatus::Empty => {
                let note = empty_note_text(facet.label@, hour);
                hoverable_text(hatched_text("no-data"@, hour, note), note)
            },
            ColumnStatus::Thin => {
                let note = thin_note_text(
                    facet.label@,
                    hour,
                    column.days as nat,
                    facet.possible_days as nat,
                );
                hoverable_text(hatched_text("thin-data"@, hour, note), note)
            },
            ColumnStatus::Sufficient => if hour < marks.len() {
                marks_text(marks[hour as int]@, hour, marks[hour as int]@.len())
            } else {
                Seq::empty()
            },
        }
    } else {
        Seq::empty()
    }
}

fn draw_column(facet: &Facet, marks: &[Vec<RunMark>], hour: usize) -> (out: String)
    requires
        hour < HOURS_PER_DAY,
    ensures
        out@ == column_text(*facet, marks@, hour as nat),
{
    if hour >= facet.columns.len() {
        return String::new();
    }
    let label: &str = facet.label.as_str();
    match facet.columns[hour].status {
        ColumnStatus::Empty => {
            let note: String = empty_note(label, hour);
            let mark: String = hatched_rect("no-data", hour, note.as_str());
            hoverable(mark.as_str(), note.as_str())
        },
        ColumnStatus::Thin => {
            let note: String = thin_note(
                label,
                hour,
                facet.columns[hour].days,
                facet.possible_days,
            );
            let mark: String = hatched_rect("thin-data", hour, note.as_str());
            hoverable(mark.as_str(), note.as_str())
        },
        ColumnStatus::Sufficient => if hour < marks.len() {
            draw_marks(marks[hour].as_slice(), hour)
        } else {
            String::new()
        },
    }
}

/// The first `hours` hour columns.
pub open spec fn columns_text(facet: Facet, marks: Seq<Vec<RunMark>>, hours: nat) -> Seq<char>
    decreases hours,
{
    if hours == 0 {
        Seq::empty()
    } else {
        columns_text(facet, marks, (hours - 1) as nat) + column_text(
            facet,
            marks,
            (hours - 1) as nat,
        )
    }
}

fn draw_columns(facet: &Facet, marks: &[Vec<RunMark>]) -> (out: String)
    ensures
        out@ == columns_text(*facet, marks@, HOURS_PER_DAY as nat),
{
    let mut out: String = String::new();
    let mut hour: usize = 0;
    while hour < HOURS_PER_DAY
        invariant
            hour <= HOURS_PER_DAY,
            out@ == columns_text(*facet, marks@, hour as nat),
        decreases HOURS_PER_DAY - hour,
    {
        out.append(draw_column(facet, marks, hour).as_str());
        hour = hour + 1;
    }
    out
}

/// The label of one hour on the axis.
pub open spec fn hour_label_text(hour: nat) -> Seq<char> {
    "<text class=\"tick\" x=\""@
        + text::decimal(56 + 20 * hour)
        + ".0\" y=\"314.0\" text-anchor=\"middle\">"@
        + text::two_digits(hour)
        + "</text>"@
}

/// The label of one hour on the axis.
fn hour_label(hour: usize) -> (out: String)
    requires
        hour < HOURS_PER_DAY,
    ensures
        out@ == hour_label_text(hour as nat),
{
    let mut out: String = String::from_str("<text class=\"tick\" x=\"");
    text::push_number(&mut out, 56 + 20 * (hour as u64));
    out.append(".0\" y=\"314.0\" text-anchor=\"middle\">");
    text::push_two_digits(&mut out, hour as u64);
    out.append("</text>");
    out
}

/// The labels of every third hour, up to the first `count` of them.
pub open spec fn hour_labels_text(count: nat) -> Seq<char>
    decreases count,
{
    if count == 0 {
        Seq::empty()
    } else {
        hour_labels_text((count - 1) as nat) + hour_label_text((3 * (count - 1)) as nat)
    }
}

fn hour_labels() -> (out: String)
    ensures
        out@ == hour_labels_text(8),
{
    let mut out: String = String::new();
    let mut i: usize = 0;
    while i < 8
        invariant
            i <= 8,
            out@ == hour_labels_text(i as nat),
        decreases 8 - i,
    {
        out.append(hour_label(3 * i).as_str());
        i = i + 1;
    }
    out
}

/// One facet as a standalone `<svg>` element, given its gridlines and the runs of cells of
/// each hour.
pub open spec fn facet_svg_text(facet: Facet, ticks: Seq<Tick>, marks: Seq<Vec<RunMark>>) -> Seq<char> {
    "<svg class=\"facet-plot\" viewBox=\"0 0 534 338\" role=\"img\" aria-label=\""@
        + render::escaped(facet.label@)
        + ": likelihood of solar power by hour of day\" preserveAspectRatio=\"xMidYMid meet\"><g class=\"grid\">"@
        + ticks_text(ticks, ticks.len())
        + "</g><g class=\"cells\">"@
        + columns_text(facet, marks, HOURS_PER_DAY as nat)
        + "</g>"@
        + strip_text(facet)
        + "<g class=\"axis\"><line x1=\"46.0\" y1=\"284.0\" x2=\"526.0\" y2=\"284.0\"/><line x1=\"46.0\" y1=\"24.0\" x2=\"46.0\" y2=\"284.0\"/>"@
        + hour_labels_text(8)
        + "<text class=\"axis-title\" x=\"286.0\" y=\"327.0\" text-anchor=\"middle\">hour of day</text></g></svg>"@
}

/// One facet as a standalone `<svg>` element, given its gridlines and the runs of cells of
/// each hour.
pub fn facet_svg(facet: &Facet, ticks: &[Tick], marks: &[Vec<RunMark>]) -> (out: String)
    ensures
        out@ == facet_svg_text(*facet, ticks@, marks@),
{
    let mut out: String = String::from_str("<svg class=\"facet-plot\" viewBox=\"0 0 534 338\" role=\"img\" aria-label=\"");
    out.append(render::escape(facet.label.as_str()).as_str());
    out.append(": likelihood of solar power by hour of day\" preserveAspectRatio=\"xMidYMid meet\"><g class=\"grid\">");
    out.append(draw_ticks(ticks).as_str());
    out.append("</g><g class=\"cells\">");
    out.append(draw_columns(facet, marks).as_str());
    out.append("</g>");
    out.append(coverage_strip(facet).as_str());
    out.append("<g class=\"axis\"><line x1=\"46.0\" y1=\"284.0\" x2=\"526.0\" y2=\"284.0\"/><line x1=\"46.0\" y1=\"24.0\" x2=\"46.0\" y2=\"284.0\"/>");
    out.append(hour_labels().as_str());
    out.append("<text class=\"axis-title\" x=\"286.0\" y=\"327.0\" text-anchor=\"middle\">hour of day</text></g></svg>");
    out
}

/// Total size of a facet drawing, in user units.
pub fn facet_size() -> (size: (u32, u32))
    ensures
        size == (534u32, 338u32),
{
    (534, 338)
}

// ---------------------------------------------------------------------------------------
// What a plot shows
// ---------------------------------------------------------------------------------------

/// Cells of one level that lie next to each other are drawn together.
pub proof fn neighbours_of_one_level_share_a_run(
    runs: Seq<Run>,
    levels: Seq<Option<usize>>,
    first: int,
    bucket: int,
)
    requires
        are_runs(runs, levels, first, levels.len() as int),
        0 <= first <= bucket,
        bucket + 1 < levels.len(),
        levels[bucket] is Some,
        levels[bucket] == levels[bucket + 1],
    ensures
        exists|i: int|
            0 <= i < runs.len() && (#[trigger] runs[i]).start <= bucket && bucket + 1
                <= runs[i].end,
{
    assert(in_a_run(runs, bucket));
    assert(in_a_run(runs, bucket + 1));
    let i = choose|i: int| 0 <= i < runs.len() && (#[trigger] runs[i]).holds(bucket);
    let j = choose|j: int| 0 <= j < runs.len() && (#[trigger] runs[j]).holds(bucket + 1);
    assert(is_run(levels, first, runs[i]));
    assert(is_run(levels, first, runs[j]));
    if i != j {
        if j < i {
            assert(runs[j].end < runs[i].start);
        } else {
            if j > i + 1 {
                assert(is_run(levels, first, runs[i + 1]));
                assert(runs[i].end < runs[i + 1].start);
                assert(runs[i + 1].end < runs[j].start);
            }
            assert(apart(runs[j - 1], runs[j]));
            assert(runs[i].end == bucket && runs[j].start == bucket + 1);
            assert(levels[bucket] == Some(runs[i].level));
            assert(levels[bucket + 1] == Some(runs[j].level));
        }
    }
}

/// "At least nothing" is never drawn where there is anything above it; every other bucket is.
pub proof fn only_certainty_is_left_out(style: SvgOptions, buckets: BucketSpec)
    requires
        buckets.wf(),
    ensures
        0 <= style.lowest_drawn(buckets) < buckets.count(),
        style.lowest_drawn(buckets) <= 1,
        style.lowest_drawn(buckets) == 1 <==> style.metric is Exceedance && buckets.count() > 1,
{
}

/// The columns of a plot stand side by side, twenty units each, from the left edge of the plot
/// to its right edge.
pub proof fn columns_stand_side_by_side(hour: nat)
    ensures
        column_x(0) == 46,
        column_x(hour + 1) == column_x(hour) + 20,
        column_x(24) == 526,
{
}

/// An hour that was never recorded has no level on the coverage strip, and any other the fifth
/// of the calendar that it was recorded on.
pub proof fn strips_show_fifths_of_the_calendar(days: nat, possible: nat)
    requires
        days <= possible,
    ensures
        strip_level(days, possible) is None <==> days == 0,
        strip_level(days, possible) matches Some(step) ==> step < 5 && step * possible < 5 * days
            <= (step + 1) * possible,
{
    let found = if days == 0 {
        None
    } else if 5 * days <= possible {
        Some(0usize)
    } else if 5 * days <= 2 * possible {
        Some(1usize)
    } else if 5 * days <= 3 * possible {
        Some(2usize)
    } else if 5 * days <= 4 * possible {
        Some(3usize)
    } else {
        Some(4usize)
    };
    assert(is_strip_level(found, days, possible));
    let level = strip_level(days, possible);
    assert(is_strip_level(level, days, possible));
    if let Some(step) = level {
        color::coverage_steps_are_fifths(days, possible, step as int);
    }
}

/// Only hours with enough evidence are coloured: what is drawn of any other does not depend on
/// its cells, is hatched, and says why.
pub proof fn only_evidence_is_coloured(
    facet: Facet,
    marks: Seq<Vec<RunMark>>,
    others: Seq<Vec<RunMark>>,
    hour: nat,
)
    requires
        hour < facet.columns@.len(),
    ensures
        ({
            let column = facet.columns@[hour as int];
            let drawn = column_text(facet, marks, hour);
            &&& !(column.status is Sufficient) ==> drawn == column_text(facet, others, hour)
            &&& !(column.status is Sufficient) ==> text::contains_text(drawn, NO_DATA_PATTERN_ID@)
            &&& column.status is Empty ==> text::contains_text(
                drawn,
                render::escaped(empty_note_text(facet.label@, hour)),
            )
            &&& column.status is Thin ==> text::contains_text(
                drawn,
                render::escaped(
                    thin_note_text(
                        facet.label@,
                        hour,
                        column.days as nat,
                        facet.possible_days as nat,
                    ),
                ),
            )
            &&& column.status is Sufficient && hour < marks.len() ==> drawn == marks_text(
                marks[hour as int]@,
                hour,
                marks[hour as int]@.len(),
            )
        }),
{
    let column = facet.columns@[hour as int];
    if !(column.status is Sufficient) {
        let note = if column.status is Empty {
            empty_note_text(facet.label@, hour)
        } else {
            thin_note_text(facet.label@, hour, column.days as nat, facet.possible_days as nat)
        };
        let class = if column.status is Empty {
            "no-data"@
        } else {
            "thin-data"@
        };
        let mark = hatched_text(class, hour, note);
        let front = "<rect class=\""@ + class + "\" x=\""@ + text::decimal(column_x(hour))
            + ".0\" y=\"24.0\" width=\"20.0\" height=\"260.0\" fill=\"url(#"@;
        let back = ")\"><title>"@ + render::escaped(note) + "</title></rect>"@;
        assert(mark =~= front + NO_DATA_PATTERN_ID@ + back);
        text::parts_are_contained(front, NO_DATA_PATTERN_ID@, back);
        let tail = "<text class=\"readout\" x=\"46.0\" y=\"14.0\">"@ + render::escaped(note)
            + "</text></g>"@;
        assert(hoverable_text(mark, note) =~= "<g class=\"cell\">"@ + mark + tail);
        text::more_text_takes_nothing_away(
            "<g class=\"cell\">"@,
            mark,
            tail,
            NO_DATA_PATTERN_ID@,
        );
        hovering_shows_the_description(mark, note);
    }
}

/// Hovering a mark shows the mark and its description, escaped.
pub proof fn hovering_shows_the_description(mark: Seq<char>, description: Seq<char>)
    ensures
        text::contains_text(hoverable_text(mark, description), mark),
        text::contains_text(hoverable_text(mark, description), render::escaped(description)),
{
    let shown = hoverable_text(mark, description);
    let open = "<g class=\"cell\">"@;
    let line = "<text class=\"readout\" x=\"46.0\" y=\"14.0\">"@;
    let words = render::escaped(description);
    assert(shown =~= open + mark + (line + words + "</text></g>"@));
    text::parts_are_contained(open, mark, line + words + "</text></g>"@);
    text::parts_are_contained(open + mark + line, words, "</text></g>"@);
    assert(shown =~= (open + mark + line) + words + "</text></g>"@);
}

/// Every hour of day is drawn, in the cells and on the strip under them.
pub proof fn every_hour_is_drawn(
    facet: Facet,
    marks: Seq<Vec<RunMark>>,
    hours: nat,
    hour: nat,
)
    requires
        hour < hours,
    ensures
        text::contains_text(columns_text(facet, marks, hours), column_text(facet, marks, hour)),
        text::contains_text(strip_cells_text(facet, hours), strip_cell_text(facet, hour)),
    decreases hours,
{
    let last = (hours - 1) as nat;
    let empty = Seq::<char>::empty();
    let (cells, strip) = (columns_text(facet, marks, last), strip_cells_text(facet, last));
    let (cell, part) = (column_text(facet, marks, last), strip_cell_text(facet, last));
    assert(cells + cell + empty =~= cells + cell);
    assert(strip + part + empty =~= strip + part);
    if hour < last {
        every_hour_is_drawn(facet, marks, last, hour);
        assert(empty + cells + cell =~= cells + cell);
        assert(empty + strip + part =~= strip + part);
        text::more_text_takes_nothing_away(
            empty,
            cells,
            cell,
            column_text(facet, marks, hour),
        );
        text::more_text_takes_nothing_away(empty, strip, part, strip_cell_text(facet, hour));
    } else {
        text::parts_are_contained(cells, cell, empty);
        text::parts_are_contained(strip, part, empty);
    }
}

/// Every run of cells of an hour is drawn, with its note.
pub proof fn every_run_is_drawn(marks: Seq<RunMark>, hour: nat, count: nat, i: int)
    requires
        0 <= i < count <= marks.len(),
    ensures
        text::contains_text(
            marks_text(marks, hour, count),
            hoverable_text(mark_text(marks[i], hour), marks[i].note@),
        ),
    decreases count,
{
    let last = count - 1;
    let empty = Seq::<char>::empty();
    let before = marks_text(marks, hour, last as nat);
    let more = hoverable_text(mark_text(marks[last], hour), marks[last].note@);
    assert(before + more + empty =~= before + more);
    if i < last {
        every_run_is_drawn(marks, hour, last as nat, i);
        assert(empty + before + more =~= before + more);
        text::more_text_takes_nothing_away(
            empty,
            before,
            more,
            hoverable_text(mark_text(marks[i], hour), marks[i].note@),
        );
    } else {
        text::parts_are_contained(before, more, empty);
    }
}

/// A run is drawn in the colour of its level, in the column of its hour, where it was put and
/// as high as it was said to be.
pub proof fn runs_are_drawn_where_they_were_put(mark: RunMark, hour: nat)
    ensures
        ({
            let drawn = mark_text(mark, hour);
            &&& text::contains_text(drawn, "\"c"@ + text::decimal(mark.level as nat) + "\""@)
            &&& text::contains_text(drawn, "x=\""@ + text::decimal(46 + 20 * hour) + ".0\""@)
            &&& text::contains_text(drawn, " y=\""@ + mark.y@ + "\""@)
            &&& text::contains_text(drawn, "height=\""@ + mark.height@ + "\""@)
        }),
{
    reveal_strlit("<rect class=\"c");
    reveal_strlit("\"c");
    reveal_strlit("\"");
    reveal_strlit("\" x=\"");
    reveal_strlit("x=\"");
    reveal_strlit(".0\" y=\"");
    reveal_strlit(".0\"");
    reveal_strlit(" y=\"");
    reveal_strlit("\" width=\"20.0\" height=\"");
    reveal_strlit("height=\"");
    reveal_strlit("\"><title>");
    let drawn = mark_text(mark, hour);
    let level = "\"c"@ + text::decimal(mark.level as nat) + "\""@;
    let x = "x=\""@ + text::decimal(46 + 20 * hour) + ".0\""@;
    let y = " y=\""@ + mark.y@ + "\""@;
    let height = "height=\""@ + mark.height@ + "\""@;
    let a: int = 12;
    assert(drawn.subrange(a, a + level.len()) =~= level);
    assert(text::matches_at(drawn, level, a));
    let b = a + level.len() + 1;
    assert(drawn.subrange(b, b + x.len()) =~= x);
    assert(text::matches_at(drawn, x, b));
    let c = b + x.len();
    assert(drawn.subrange(c, c + y.len()) =~= y);
    assert(text::matches_at(drawn, y, c));
    let d = c + y.len() + 14;
    assert(drawn.subrange(d, d + height.len()) =~= height);
    assert(text::matches_at(drawn, height, d));
}

/// The power of a run is told from its lowest bucket: "at least" that for exceedance, and for
/// density up to where the next bucket starts, the last one having no end.
pub proof fn powers_are_told_from_the_lowest_bucket(
    metric: Metric,
    run: Run,
    buckets: nat,
    low: Seq<char>,
    high: Seq<char>,
    above: Seq<char>,
)
    requires
        run.start <= run.end < buckets,
    ensures
        ({
            let words = power_text(metric, run, buckets, low, high, above);
            &&& metric is Exceedance ==> words.take("at least "@.len() as int) == "at least "@
            &&& metric is Exceedance && run.start == run.end ==> text::has_suffix(words, low)
            &&& metric is Exceedance && run.start < run.end ==> text::has_suffix(words, high)
                && text::contains_text(words, low)
            &&& metric is Density ==> words.take(low.len() as int) == low
            &&& metric is Density && run.start == run.end && run.end == buckets - 1
                ==> text::has_suffix(words, " and above"@)
            &&& metric is Density && !(run.start == run.end && run.end == buckets - 1)
                ==> text::has_suffix(words, above)
        }),
{
    let words = power_text(metric, run, buckets, low, high, above);
    let lead = "at least "@;
    match metric {
        Metric::Exceedance => {
            assert(words.take(lead.len() as int) =~= lead);
            if run.start == run.end {
                assert(words.skip(words.len() - low.len()) =~= low);
            } else {
                text::parts_are_contained(lead, low, " to "@ + high);
                assert(words =~= lead + low + (" to "@ + high));
                assert(words.skip(words.len() - high.len()) =~= high);
            }
        },
        Metric::Density => {
            assert(words.take(low.len() as int) =~= low);
            if run.start == run.end && run.end == buckets - 1 {
                assert(words.skip(words.len() - " and above"@.len()) =~= " and above"@);
            } else {
                assert(words.skip(words.len() - above.len()) =~= above);
            }
        },
    }
}

/// A cell is drawn exactly when it has a level: it lies between the ends of one run, which has
/// that level, and of no other.
pub proof fn cells_lie_between_the_ends_of_their_run(
    runs: Seq<Run>,
    levels: Seq<Option<usize>>,
    first: int,
    bucket: int,
)
    requires
        are_runs(runs, levels, first, levels.len() as int),
        0 <= first <= bucket < levels.len(),
    ensures
        levels[bucket] is Some <==> exists|i: int|
            0 <= i < runs.len() && (#[trigger] runs[i]).start <= bucket && bucket <= runs[i].end,
        forall|i: int|
            0 <= i < runs.len() && (#[trigger] runs[i]).start <= bucket && bucket <= runs[i].end
                ==> levels[bucket] == Some(runs[i].level),
        forall|i: int, j: int|
            0 <= i < j < runs.len() ==> (#[trigger] runs[i]).end < (#[trigger] runs[j]).start,
        forall|i: int|
            0 <= i < runs.len() ==> first <= (#[trigger] runs[i]).start && runs[i].start
                <= runs[i].end && runs[i].end < levels.len(),
{
    if levels[bucket] is Some {
        assert(in_a_run(runs, bucket));
        let i = choose|i: int| 0 <= i < runs.len() && (#[trigger] runs[i]).holds(bucket);
        assert(runs[i].start <= bucket);
    }
    assert forall|i: int|
        0 <= i < runs.len() && (#[trigger] runs[i]).start <= bucket && bucket
            <= runs[i].end implies levels[bucket] == Some(runs[i].level) by {
        assert(is_run(levels, first, runs[i]));
        assert(runs[i].holds(bucket));
    }
    assert forall|i: int| 0 <= i < runs.len() implies first <= (#[trigger] runs[i]).start
        && runs[i].start <= runs[i].end && runs[i].end < levels.len() by {
        assert(is_run(levels, first, runs[i]));
    }
}

/// The label of an hour stands in the middle of its column, and every third hour of the day
/// has one.
pub proof fn every_third_hour_is_labelled(count: nat, k: nat)
    requires
        k < count,
    ensures
        text::contains_text(hour_labels_text(count), hour_label_text(3 * k)),
        text::contains_text(
            hour_label_text(3 * k),
            "x=\""@ + text::decimal(column_x(3 * k) + 10) + ".0\""@,
        ),
        text::contains_text(hour_label_text(3 * k), ">"@ + text::two_digits(3 * k) + "<"@),
    decreases count,
{
    reveal_strlit("<text class=\"tick\" x=\"");
    reveal_strlit("x=\"");
    reveal_strlit(".0\"");
    reveal_strlit(".0\" y=\"314.0\" text-anchor=\"middle\">");
    reveal_strlit(">");
    reveal_strlit("<");
    reveal_strlit("</text>");
    let label = hour_label_text(3 * k);
    let x = "x=\""@ + text::decimal(column_x(3 * k) + 10) + ".0\""@;
    assert(label.subrange(19, 19 + x.len() as int) =~= x);
    assert(text::matches_at(label, x, 19));
    let name = ">"@ + text::two_digits(3 * k) + "<"@;
    let at = label.len() - 7 - text::two_digits(3 * k).len() - 1;
    assert(label.subrange(at, at + name.len()) =~= name);
    assert(text::matches_at(label, name, at));
    let last = (count - 1) as nat;
    let empty = Seq::<char>::empty();
    let before = hour_labels_text(last);
    let more = hour_label_text(3 * last);
    assert(before + more + empty =~= before + more);
    if k < last {
        every_third_hour_is_labelled(last, k);
        assert(empty + before + more =~= before + more);
        text::more_text_takes_nothing_away(empty, before, more, label);
    } else {
        text::parts_are_contained(before, more, empty);
    }
}

/// Every gridline is drawn, with its label.
pub proof fn every_gridline_is_drawn(ticks: Seq<Tick>, count: nat, i: int)
    requires
        0 <= i < count <= ticks.len(),
    ensures
        text::contains_text(ticks_text(ticks, count), tick_text(ticks[i])),
        text::contains_text(tick_text(ticks[i]), render::escaped(ticks[i].label@)),
    decreases count,
{
    let tick = ticks[i];
    let front = "<line x1=\"46.0\" y1=\""@ + tick.y@ + "\" x2=\"526.0\" y2=\""@ + tick.y@
        + "\"/><text class=\"tick\" x=\"41.0\" y=\""@ + tick.label_y@
        + "\" text-anchor=\"end\">"@;
    text::parts_are_contained(front, render::escaped(tick.label@), "</text>"@);
    let last = count - 1;
    let empty = Seq::<char>::empty();
    let before = ticks_text(ticks, last as nat);
    let more = tick_text(ticks[last]);
    assert(before + more + empty =~= before + more);
    if i < last {
        every_gridline_is_drawn(ticks, last as nat, i);
        assert(empty + before + more =~= before + more);
        text::more_text_takes_nothing_away(empty, before, more, tick_text(tick));
    } else {
        text::parts_are_contained(before, more, empty);
    }
}

/// An hour that a facet has no column for is not drawn, and neither are cells that were not
/// given.
pub proof fn missing_columns_are_not_drawn(facet: Facet, marks: Seq<Vec<RunMark>>, hour: nat)
    ensures
        hour >= facet.columns@.len() ==> column_text(facet, marks, hour) == Seq::<char>::empty(),
        hour >= facet.columns@.len() ==> strip_cell_text(facet, hour) == Seq::<char>::empty(),
        hour < facet.columns@.len() && facet.columns@[hour as int].status is Sufficient && hour
            >= marks.len() ==> column_text(facet, marks, hour) == Seq::<char>::empty(),
{
}

/// An hour on the coverage strip has the class of its level, stands in its column, and says how
/// many days it was recorded on.
pub proof fn strips_say_how_many_days(facet: Facet, hour: nat)
    requires
        hour < facet.columns@.len(),
    ensures
        ({
            let days = facet.columns@[hour as int].days as nat;
            let cell = strip_cell_text(facet, hour);
            let class = match strip_level(days, facet.possible_days as nat) {
                Some(level) => "cov"@ + text::decimal(level as nat),
                None => "cov-none"@,
            };
            &&& text::contains_text(cell, "<rect class=\""@ + class + "\" x=\""@ + text::decimal(
                46 + 20 * hour,
            ))
            &&& text::contains_text(
                cell,
                render::escaped(
                    strip_note_text(facet.label@, hour, days, facet.possible_days as nat),
                ),
            )
        }),
{
    let days = facet.columns@[hour as int].days as nat;
    let possible = facet.possible_days as nat;
    let note = strip_note_text(facet.label@, hour, days, possible);
    let class = strip_class(strip_level(days, possible));
    let rect = strip_rect_text(class, hour, note);
    hovering_shows_the_description(rect, note);
    let front = "<rect class=\""@ + class + "\" x=\""@ + text::decimal(46 + 20 * hour);
    let back = ".0\" y=\"295.0\" width=\"20.0\" height=\"7.0\"><title>"@ + render::escaped(note)
        + "</title></rect>"@;
    let empty = Seq::<char>::empty();
    assert(rect =~= empty + front + back);
    text::parts_are_contained(empty, front, back);
    let line = "<text class=\"readout\" x=\"46.0\" y=\"14.0\">"@ + render::escaped(note)
        + "</text></g>"@;
    text::more_text_takes_nothing_away("<g class=\"cell\">"@, rect, line, front);
    assert(strip_cell_text(facet, hour) =~= "<g class=\"cell\">"@ + rect + line);
}

} // verus!
