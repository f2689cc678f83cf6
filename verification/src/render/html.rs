//! The page: header, scale legend, one heatmap per facet, and a table view of the same
//! numbers so nothing is readable only by colour or only on hover.

use vstd::prelude::*;

use crate::analysis::{Analysis, ColumnStatus, Facet};
use crate::coverage::Coverage;
use crate::model::{Metric, HOURS_PER_DAY};
use crate::render;
use crate::render::color;
use crate::render::layout;
use crate::render::layout::{CoverageFigures, Shell};
use crate::render::svg;
use crate::render::svg::{RunMark, Tick, NO_DATA_PATTERN_ID};
use crate::text;
use crate::timeutil::Zone;

verus! {

/// Everything the page needs beyond the analysis itself.
#[derive(Debug)]
pub struct PageOptions {
    /// Entity the report is about, shown in the header.
    pub entity: String,
    /// Facts about the run: source table, timezone, date range and so on.
    pub metadata: Vec<(String, String)>,
    /// What the recorder actually covered, and where the outages are.
    pub coverage: Option<(Coverage, CoverageFigures)>,
    /// Timezone the coverage dates are stated in.
    pub tz: Zone,
    pub levels: usize,
}

impl Default for PageOptions {
    fn default() -> (options: Self)
        ensures
            options.entity@ == Seq::<char>::empty(),
            options.metadata@.len() == 0,
            options.coverage is None,
            options.tz@ == "UTC"@,
            options.levels == color::DEFAULT_LEVELS,
    {
        PageOptions {
            entity: String::new(),
            metadata: Vec::new(),
            coverage: None,
            tz: Zone::utc(),
            levels: color::DEFAULT_LEVELS,
        }
    }
}

/// One row of a facet's table: a power, and how likely it is at each hour.
#[derive(Debug)]
pub struct TableRow {
    pub power: String,
    pub shares: Vec<String>,
}

/// What of a facet's drawing depends on power and probability.
#[derive(Debug)]
pub struct FacetDrawing {
    pub ticks: Vec<Tick>,
    /// The runs of cells of each hour.
    pub marks: Vec<Vec<RunMark>>,
    /// The rows of the table, from the lowest power to the highest.
    pub rows: Vec<TableRow>,
}

/// The figures of a page that are stated as rounded numbers.
#[derive(Debug)]
pub struct PageFigures {
    /// One step of the power axis.
    pub step: String,
    /// The top of the power axis.
    pub top: String,
    /// The probability at which each colour level starts.
    pub edges: Vec<String>,
    /// Certainty, where the last level ends.
    pub whole: String,
    /// The probability below which cells are left blank.
    pub blank_below: String,
}

// ---------------------------------------------------------------------------------------
// Header
// ---------------------------------------------------------------------------------------

/// What a reader is looking at.
pub open spec fn lede_text(analysis: Analysis) -> Seq<char> {
    match analysis.metric {
        Metric::Exceedance => "Each cell is the share of observed time at that hour with at least that much power available, per "@
        + analysis.grouping.word()
        + ". Darker red means more likely; the full scale, and what the hatching means, are below the plots."@,
        Metric::Density => "Each cell is the share of observed time at that hour spent inside that power band, per "@
        + analysis.grouping.word()
        + ". Darker red means more likely; the full scale, and what the hatching means, are below the plots."@,
    }
}

/// What a reader is looking at.
pub fn lede(analysis: &Analysis) -> (out: String)
    ensures
        out@ == lede_text(*analysis),
{
    let word: String = analysis.grouping.to_string();
    match analysis.metric {
        Metric::Exceedance => {
            let mut out: String = String::from_str("Each cell is the share of observed time at that hour with at least that much power available, per ");
            out.append(word.as_str());
            out.append(". Darker red means more likely; the full scale, and what the hatching means, are below the plots.");
            out
        },
        Metric::Density => {
            let mut out: String = String::from_str("Each cell is the share of observed time at that hour spent inside that power band, per ");
            out.append(word.as_str());
            out.append(". Darker red means more likely; the full scale, and what the hatching means, are below the plots.");
            out
        },
    }
}

/// The definition list at the top: what was read, and how much of it there is.
pub open spec fn metadata_text(analysis: Analysis, options: PageOptions, figures: PageFigures) -> Seq<char> {
    "<section class=\"meta\"><dl><div><dt>Entity</dt><dd>"@
        + render::escaped(options.entity@)
        + "</dd></div>"@
        + layout::entries_text(options.metadata@, options.metadata@.len())
        + "<div><dt>Observed</dt><dd>"@
        + text::decimal(analysis.observed_days as nat)
        + " days</dd></div><div><dt>Readings</dt><dd>"@
        + text::decimal(analysis.total_samples as nat)
        + "</dd></div><div><dt>Buckets</dt><dd>"@
        + render::escaped(figures.step@)
        + " steps up to "@
        + render::escaped(figures.top@)
        + "</dd></div></dl></section>"@
}

/// The definition list at the top: what was read, and how much of it there is.
pub fn metadata_list(analysis: &Analysis, options: &PageOptions, figures: &PageFigures) -> (out: String)
    ensures
        out@ == metadata_text(*analysis, *options, *figures),
{
    let mut out: String = String::from_str("<section class=\"meta\"><dl><div><dt>Entity</dt><dd>");
    out.append(render::escape(options.entity.as_str()).as_str());
    out.append("</dd></div>");
    out.append(layout::list_entries(options.metadata.as_slice()).as_str());
    out.append("<div><dt>Observed</dt><dd>");
    text::push_number(&mut out, analysis.observed_days as u64);
    out.append(" days</dd></div><div><dt>Readings</dt><dd>");
    text::push_wide(&mut out, analysis.total_samples);
    out.append("</dd></div><div><dt>Buckets</dt><dd>");
    out.append(render::escape(figures.step.as_str()).as_str());
    out.append(" steps up to ");
    out.append(render::escape(figures.top.as_str()).as_str());
    out.append("</dd></div></dl></section>");
    out
}

// ---------------------------------------------------------------------------------------
// Legend
// ---------------------------------------------------------------------------------------

/// One colour level of the legend.
pub open spec fn level_item_text(index: nat, lower: Seq<char>, upper: Seq<char>) -> Seq<char> {
    "<li><span class=\"swatch s"@
        + text::decimal(index)
        + "\" aria-hidden=\"true\"></span><span class=\"swatch-label\">"@
        + render::escaped(lower + "-"@ + upper)
        + "</span></li>"@
}

/// One colour level of the legend.
fn level_item(index: u64, lower: &str, upper: &str) -> (out: String)
    ensures
        out@ == level_item_text(index as nat, lower@, upper@),
{
    let mut range: String = String::from_str(lower);
    range.append("-");
    range.append(upper);
    let mut out: String = String::from_str("<li><span class=\"swatch s");
    text::push_number(&mut out, index);
    out.append("\" aria-hidden=\"true\"></span><span class=\"swatch-label\">");
    out.append(render::escape(range.as_str()).as_str());
    out.append("</span></li>");
    out
}

/// The first `count` colour levels of the legend.
pub open spec fn levels_text(edges: Seq<String>, whole: Seq<char>, count: nat) -> Seq<char>
    decreases count,
{
    if count == 0 {
        Seq::empty()
    } else {
        let upper = if count < edges.len() {
            edges[count as int]@
        } else {
            whole
        };
        levels_text(edges, whole, (count - 1) as nat) + level_item_text(
            (count - 1) as nat,
            edges[count - 1]@,
            upper,
        )
    }
}

fn list_levels(edges: &[String], whole: &str) -> (out: String)
    ensures
        out@ == levels_text(edges@, whole@, edges@.len()),
{
    let mut out: String = String::new();
    let length: usize = edges.len();
    let mut i: usize = 0;
    while i < length
        invariant
            i <= length,
            length == edges@.len(),
            out@ == levels_text(edges@, whole@, i as nat),
        decreases length - i,
    {
        let upper: &str = if i + 1 < length {
            edges[i + 1].as_str()
        } else {
            whole
        };
        out.append(level_item(i as u64, edges[i].as_str(), upper).as_str());
        i = i + 1;
    }
    out
}

/// One coverage step of the legend: up to which share of the days it stands for.
pub open spec fn coverage_item_text(level: nat) -> Seq<char> {
    "<li><span class=\"swatch cov"@
        + text::decimal(level)
        + "\" aria-hidden=\"true\"></span><span class=\"swatch-label\">"@
        + (if level + 1 == color::COVERAGE_LEVELS { "most days"@ } else { ""@
        + text::decimal((level + 1) * 100 / 5)
        + "%"@ })
        + "</span></li>"@
}

/// One coverage step of the legend: up to which share of the days it stands for.
fn coverage_item(level: u64) -> (out: String)
    requires
        level < color::COVERAGE_LEVELS,
    ensures
        out@ == coverage_item_text(level as nat),
{
    let part_1: String = if level + 1 == 5 {
        let mut part: String = String::from_str("most days");
        part
    } else {
        let mut part: String = String::from_str("");
        text::push_number(&mut part, (level + 1) * 100 / 5);
        part.append("%");
        part
    };
    let mut out: String = String::from_str("<li><span class=\"swatch cov");
    text::push_number(&mut out, level);
    out.append("\" aria-hidden=\"true\"></span><span class=\"swatch-label\">");
    out.append(part_1.as_str());
    out.append("</span></li>");
    out
}

/// The first `count` coverage steps of the legend.
pub open spec fn coverage_items_text(count: nat) -> Seq<char>
    decreases count,
{
    if count == 0 {
        Seq::empty()
    } else {
        coverage_items_text((count - 1) as nat) + coverage_item_text((count - 1) as nat)
    }
}

fn list_coverage() -> (out: String)
    ensures
        out@ == coverage_items_text(color::COVERAGE_LEVELS as nat),
{
    let mut out: String = String::new();
    let mut i: usize = 0;
    while i < color::COVERAGE_LEVELS
        invariant
            i <= color::COVERAGE_LEVELS,
            out@ == coverage_items_text(i as nat),
        decreases color::COVERAGE_LEVELS - i,
    {
        out.append(coverage_item(i as u64).as_str());
        i = i + 1;
    }
    out
}

/// How to read a plot.
pub open spec fn reading_note_text(metric: Metric, step: Seq<char>) -> Seq<char> {
    match metric {
        Metric::Exceedance => "Read a column upwards: the height at which the colour fades is roughly the power you can count on at that hour. The axis starts at "@
        + step
        + ", because \"at least nothing\" is always certain."@,
        Metric::Density => "Read a column upwards: the brightest band is the power this hour spends most of its time at."@,
    }
}

fn reading_note(metric: Metric, step: &str) -> (out: String)
    ensures
        out@ == reading_note_text(metric, step@),
{
    match metric {
        Metric::Exceedance => {
            let mut out: String = String::from_str("Read a column upwards: the height at which the colour fades is roughly the power you can count on at that hour. The axis starts at ");
            out.append(step);
            out.append(", because \"at least nothing\" is always certain.");
            out
        },
        Metric::Density => String::from_str(
            "Read a column upwards: the brightest band is the power this hour spends most of its time at.",
        ),
    }
}

/// The key to the colours, the hatching and the coverage strip.
pub open spec fn legend_text(analysis: Analysis, figures: PageFigures) -> Seq<char> {
    "<section class=\"legend\"><h2>Likelihood</h2><ul class=\"scale\">"@
        + levels_text(figures.edges@, figures.whole@, figures.edges@.len())
        + "</ul><ul class=\"scale extra\"><li><span class=\"swatch blank\" aria-hidden=\"true\"></span><span class=\"swatch-label\">below "@
        + render::escaped(figures.blank_below@)
        + "</span></li><li><span class=\"swatch hatched thin\" aria-hidden=\"true\"></span><span class=\"swatch-label\">fewer than "@
        + text::decimal(analysis.min_days as nat)
        + " days recorded</span></li><li><span class=\"swatch hatched empty\" aria-hidden=\"true\"></span><span class=\"swatch-label\">never recorded</span></li></ul><ul class=\"scale extra\"><li><span class=\"swatch-label\">days recorded per hour</span></li><li><span class=\"swatch cov-none\" aria-hidden=\"true\"></span><span class=\"swatch-label\">none</span></li>"@
        + coverage_items_text(color::COVERAGE_LEVELS as nat)
        + "</ul><p class=\"note\">"@
        + render::escaped(reading_note_text(analysis.metric, figures.step@))
        + "</p></section>"@
}

/// The key to the colours, the hatching and the coverage strip.
pub fn legend(analysis: &Analysis, figures: &PageFigures) -> (out: String)
    ensures
        out@ == legend_text(*analysis, *figures),
{
    let mut out: String = String::from_str("<section class=\"legend\"><h2>Likelihood</h2><ul class=\"scale\">");
    out.append(list_levels(figures.edges.as_slice(), figures.whole.as_str()).as_str());
    out.append("</ul><ul class=\"scale extra\"><li><span class=\"swatch blank\" aria-hidden=\"true\"></span><span class=\"swatch-label\">below ");
    out.append(render::escape(figures.blank_below.as_str()).as_str());
    out.append("</span></li><li><span class=\"swatch hatched thin\" aria-hidden=\"true\"></span><span class=\"swatch-label\">fewer than ");
    text::push_number(&mut out, analysis.min_days as u64);
    out.append(" days recorded</span></li><li><span class=\"swatch hatched empty\" aria-hidden=\"true\"></span><span class=\"swatch-label\">never recorded</span></li></ul><ul class=\"scale extra\"><li><span class=\"swatch-label\">days recorded per hour</span></li><li><span class=\"swatch cov-none\" aria-hidden=\"true\"></span><span class=\"swatch-label\">none</span></li>");
    out.append(list_coverage().as_str());
    out.append("</ul><p class=\"note\">");
    out.append(render::escape(reading_note(analysis.metric, figures.step.as_str()).as_str()).as_str());
    out.append("</p></section>");
    out
}

// ---------------------------------------------------------------------------------------
// Facets
// ---------------------------------------------------------------------------------------

/// The caption line under a facet's name: how much calendar it rests on.
pub open spec fn stats_text(facet: Facet) -> Seq<char> {
    ""@
        + text::decimal(facet.days as nat)
        + (if facet.possible_days > 0 { " of "@
        + text::decimal(facet.possible_days as nat)
        + " days"@ } else { " days"@ })
}

/// The caption line under a facet's name: how much calendar it rests on.
pub fn facet_stats(facet: &Facet) -> (out: String)
    ensures
        out@ == stats_text(*facet),
{
    let part_1: String = if facet.possible_days > 0 {
        let mut part: String = String::from_str(" of ");
        text::push_number(&mut part, facet.possible_days as u64);
        part.append(" days");
        part
    } else {
        let mut part: String = String::from_str(" days");
        part
    };
    let mut out: String = String::from_str("");
    text::push_number(&mut out, facet.days as u64);
    out.append(part_1.as_str());
    out
}

/// What a facet's table shows.
pub open spec fn caption_text(label: Seq<char>, metric: Metric) -> Seq<char> {
    match metric {
        Metric::Exceedance => label + ": probability of at least the given power, by hour of day"@,
        Metric::Density => label
            + ": probability of being inside the given power band, by hour of day"@,
    }
}

fn caption(label: &str, metric: Metric) -> (out: String)
    ensures
        out@ == caption_text(label@, metric),
{
    let mut out: String = String::from_str(label);
    match metric {
        Metric::Exceedance => out.append(
            ": probability of at least the given power, by hour of day",
        ),
        Metric::Density => out.append(
            ": probability of being inside the given power band, by hour of day",
        ),
    }
    out
}

/// The heading of one hour.
pub open spec fn hour_heading_text(hour: nat) -> Seq<char> {
    "<th scope=\"col\">"@
        + text::two_digits(hour)
        + "</th>"@
}

/// The heading of one hour.
fn hour_heading(hour: usize) -> (out: String)
    ensures
        out@ == hour_heading_text(hour as nat),
{
    let mut out: String = String::from_str("<th scope=\"col\">");
    text::push_two_digits(&mut out, hour as u64);
    out.append("</th>");
    out
}

/// The headings of the first `hours` hours.
pub open spec fn hour_headings_text(hours: nat) -> Seq<char>
    decreases hours,
{
    if hours == 0 {
        Seq::empty()
    } else {
        hour_headings_text((hours - 1) as nat) + hour_heading_text((hours - 1) as nat)
    }
}

fn hour_headings() -> (out: String)
    ensures
        out@ == hour_headings_text(HOURS_PER_DAY as nat),
{
    let mut out: String = String::new();
    let mut hour: usize = 0;
    while hour < HOURS_PER_DAY
        invariant
            hour <= HOURS_PER_DAY,
            out@ == hour_headings_text(hour as nat),
        decreases HOURS_PER_DAY - hour,
    {
        out.append(hour_heading(hour).as_str());
        hour = hour + 1;
    }
    out
}

/// What the table says of one hour: the share, or a dash where the evidence does not
/// suffice.
pub open spec fn share_text(facet: Facet, shares: Seq<String>, hour: nat) -> Seq<char> {
    if hour < facet.columns@.len() && facet.columns@[hour as int].status is Sufficient && hour
        < shares.len() {
        shares[hour as int]@
    } else {
        "-"@
    }
}

/// The cell of one hour.
pub open spec fn share_cell_text(facet: Facet, shares: Seq<String>, hour: nat) -> Seq<char> {
    "<td>"@
        + render::escaped(share_text(facet, shares, hour))
        + "</td>"@
}

/// The cell of one hour.
fn share_cell(facet: &Facet, shares: &[String], hour: usize) -> (out: String)
    ensures
        out@ == share_cell_text(*facet, shares@, hour as nat),
{
    let share: &str = if hour < facet.columns.len() && facet.columns[hour].status.is_sufficient()
        && hour < shares.len() {
        shares[hour].as_str()
    } else {
        "-"
    };
    let mut out: String = String::from_str("<td>");
    out.append(render::escape(share).as_str());
    out.append("</td>");
    out
}

/// The cells of the first `hours` hours.
pub open spec fn share_cells_text(facet: Facet, shares: Seq<String>, hours: nat) -> Seq<char>
    decreases hours,
{
    if hours == 0 {
        Seq::empty()
    } else {
        share_cells_text(facet, shares, (hours - 1) as nat) + share_cell_text(facet, shares, (hours - 1) as nat)
    }
}

fn share_cells(facet: &Facet, shares: &[String]) -> (out: String)
    ensures
        out@ == share_cells_text(*facet, shares@, HOURS_PER_DAY as nat),
{
    let mut out: String = String::new();
    let mut hour: usize = 0;
    while hour < HOURS_PER_DAY
        invariant
            hour <= HOURS_PER_DAY,
            out@ == share_cells_text(*facet, shares@, hour as nat),
        decreases HOURS_PER_DAY - hour,
    {
        out.append(share_cell(facet, shares, hour).as_str());
        hour = hour + 1;
    }
    out
}

/// One row of a facet's table.
pub open spec fn table_row_text(facet: Facet, row: TableRow) -> Seq<char> {
    "<tr><th scope=\"row\">"@
        + render::escaped(row.power@)
        + "</th>"@
        + share_cells_text(facet, row.shares@, HOURS_PER_DAY as nat)
        + "</tr>"@
}

/// One row of a facet's table.
fn table_row(facet: &Facet, row: &TableRow) -> (out: String)
    ensures
        out@ == table_row_text(*facet, *row),
{
    let mut out: String = String::from_str("<tr><th scope=\"row\">");
    out.append(render::escape(row.power.as_str()).as_str());
    out.append("</th>");
    out.append(share_cells(facet, row.shares.as_slice()).as_str());
    out.append("</tr>");
    out
}

/// The rows of a facet's table from the highest power down, as far as the last `count`.
pub open spec fn table_rows_text(facet: Facet, rows: Seq<TableRow>, count: nat) -> Seq<char>
    decreases count,
{
    if count == 0 {
        Seq::empty()
    } else {
        table_rows_text(facet, rows, (count - 1) as nat) + table_row_text(
            facet,
            rows[rows.len() - count],
        )
    }
}

fn table_rows(facet: &Facet, rows: &[TableRow]) -> (out: String)
    ensures
        out@ == table_rows_text(*facet, rows@, rows@.len()),
{
    let mut out: String = String::new();
    let length: usize = rows.len();
    let mut done: usize = 0;
    while done < length
        invariant
            done <= length,
            length == rows@.len(),
            out@ == table_rows_text(*facet, rows@, done as nat),
        decreases length - done,
    {
        done = done + 1;
        out.append(table_row(facet, &rows[length - done]).as_str());
    }
    out
}

/// How many days back an hour.
pub open spec fn days_of(facet: Facet, hour: nat) -> nat {
    if hour < facet.columns@.len() {
        facet.columns@[hour as int].days as nat
    } else {
        0
    }
}

/// The cell saying how many days back one hour.
pub open spec fn days_cell_text(facet: Facet, hour: nat) -> Seq<char> {
    "<td>"@
        + text::decimal(days_of(facet, hour))
        + "</td>"@
}

/// The cell saying how many days back one hour.
fn days_cell(facet: &Facet, hour: usize) -> (out: String)
    ensures
        out@ == days_cell_text(*facet, hour as nat),
{
    let days: u32 = if hour < facet.columns.len() {
        facet.columns[hour].days
    } else {
        0
    };
    let mut out: String = String::from_str("<td>");
    text::push_number(&mut out, days as u64);
    out.append("</td>");
    out
}

/// The cells saying how many days back the first `hours` hours.
pub open spec fn days_cells_text(facet: Facet, hours: nat) -> Seq<char>
    decreases hours,
{
    if hours == 0 {
        Seq::empty()
    } else {
        days_cells_text(facet, (hours - 1) as nat) + days_cell_text(facet, (hours - 1) as nat)
    }
}

fn days_cells(facet: &Facet) -> (out: String)
    ensures
        out@ == days_cells_text(*facet, HOURS_PER_DAY as nat),
{
    let mut out: String = String::new();
    let mut hour: usize = 0;
    while hour < HOURS_PER_DAY
        invariant
            hour <= HOURS_PER_DAY,
            out@ == days_cells_text(*facet, hour as nat),
        decreases HOURS_PER_DAY - hour,
    {
        out.append(days_cell(facet, hour).as_str());
        hour = hour + 1;
    }
    out
}

/// The table twin of a facet: the same probabilities as text, at the gridline levels.
pub open spec fn facet_table_text(facet: Facet, rows: Seq<TableRow>, metric: Metric) -> Seq<char> {
    "<details class=\"table-view\"><summary>"@
        + render::escaped(facet.label@)
        + " as a table</summary><div class=\"table-scroll\"><table><caption>"@
        + render::escaped(caption_text(facet.label@, metric))
        + "</caption><thead><tr><th scope=\"col\">Power</th>"@
        + hour_headings_text(HOURS_PER_DAY as nat)
        + "</tr></thead><tbody>"@
        + table_rows_text(facet, rows, rows.len())
        + "<tr class=\"days-row\"><th scope=\"row\">days</th>"@
        + days_cells_text(facet, HOURS_PER_DAY as nat)
        + "</tr></tbody></table></div></details>"@
}

/// The table twin of a facet: the same probabilities as text, at the gridline levels.
pub fn facet_table(facet: &Facet, rows: &[TableRow], metric: Metric) -> (out: String)
    ensures
        out@ == facet_table_text(*facet, rows@, metric),
{
    let mut out: String = String::from_str("<details class=\"table-view\"><summary>");
    out.append(render::escape(facet.label.as_str()).as_str());
    out.append(" as a table</summary><div class=\"table-scroll\"><table><caption>");
    out.append(render::escape(caption(facet.label.as_str(), metric).as_str()).as_str());
    out.append("</caption><thead><tr><th scope=\"col\">Power</th>");
    out.append(hour_headings().as_str());
    out.append("</tr></thead><tbody>");
    out.append(table_rows(facet, rows).as_str());
    out.append("<tr class=\"days-row\"><th scope=\"row\">days</th>");
    out.append(days_cells(facet).as_str());
    out.append("</tr></tbody></table></div></details>");
    out
}

/// One facet: its caption, its plot and its table.
pub open spec fn facet_section_text(facet: Facet, drawing: FacetDrawing, metric: Metric) -> Seq<char> {
    "<figure class=\"facet\"><figcaption><span class=\"facet-name\">"@
        + render::escaped(facet.label@)
        + "</span><span class=\"facet-stats\">"@
        + render::escaped(stats_text(facet))
        + "</span></figcaption>"@
        + svg::facet_svg_text(facet, drawing.ticks@, drawing.marks@)
        + facet_table_text(facet, drawing.rows@, metric)
        + "</figure>"@
}

/// One facet: its caption, its plot and its table.
pub fn facet_section(facet: &Facet, drawing: &FacetDrawing, metric: Metric) -> (out: String)
    ensures
        out@ == facet_section_text(*facet, *drawing, metric),
{
    let mut out: String = String::from_str("<figure class=\"facet\"><figcaption><span class=\"facet-name\">");
    out.append(render::escape(facet.label.as_str()).as_str());
    out.append("</span><span class=\"facet-stats\">");
    out.append(render::escape(facet_stats(facet).as_str()).as_str());
    out.append("</span></figcaption>");
    out.append(svg::facet_svg(facet, drawing.ticks.as_slice(), drawing.marks.as_slice()).as_str());
    out.append(facet_table(facet, drawing.rows.as_slice(), metric).as_str());
    out.append("</figure>");
    out
}

/// The first `count` facets.
pub open spec fn facets_text(
    facets: Seq<Facet>,
    drawings: Seq<FacetDrawing>,
    metric: Metric,
    count: nat,
) -> Seq<char>
    decreases count,
{
    if count == 0 {
        Seq::empty()
    } else {
        facets_text(facets, drawings, metric, (count - 1) as nat) + facet_section_text(
            facets[count - 1],
            drawings[count - 1],
            metric,
        )
    }
}

fn draw_facets(facets: &[Facet], drawings: &[FacetDrawing], metric: Metric) -> (out: String)
    requires
        facets@.len() == drawings@.len(),
    ensures
        out@ == facets_text(facets@, drawings@, metric, facets@.len()),
{
    let mut out: String = String::new();
    let mut i: usize = 0;
    while i < facets.len()
        invariant
            i <= facets@.len(),
            facets@.len() == drawings@.len(),
            out@ == facets_text(facets@, drawings@, metric, i as nat),
        decreases facets@.len() - i,
    {
        out.append(facet_section(&facets[i], &drawings[i], metric).as_str());
        i = i + 1;
    }
    out
}

// ---------------------------------------------------------------------------------------
// The document
// ---------------------------------------------------------------------------------------

/// The line at the foot of the page.
pub open spec fn footer_text(analysis: Analysis, version: Seq<char>) -> Seq<char> {
    "Generated by pv-probability "@
        + version
        + " - "@
        + text::decimal(analysis.facets@.len())
        + " facets, "@
        + analysis.metric.word()
        + " metric, grouped by "@
        + analysis.grouping.word()
        + "."@
}

/// The line at the foot of the page.
pub fn footer(analysis: &Analysis, version: &str) -> (out: String)
    ensures
        out@ == footer_text(*analysis, version@),
{
    let mut out: String = String::from_str("Generated by pv-probability ");
    out.append(version);
    out.append(" - ");
    text::push_number(&mut out, analysis.facets.len() as u64);
    out.append(" facets, ");
    out.append(analysis.metric.to_string().as_str());
    out.append(" metric, grouped by ");
    out.append(analysis.grouping.to_string().as_str());
    out.append(".");
    out
}

/// A zero-sized SVG carrying the hatch pattern every facet references.
pub open spec fn defs_text() -> Seq<char> {
    "<svg class=\"defs\" width=\"0\" height=\"0\" aria-hidden=\"true\" focusable=\"false\"><defs><pattern id=\""@
        + NO_DATA_PATTERN_ID@
        + "\" width=\"6\" height=\"6\" patternUnits=\"userSpaceOnUse\" patternTransform=\"rotate(45)\"><line x1=\"0\" y1=\"0\" x2=\"0\" y2=\"6\" class=\"hatch\"/></pattern></defs></svg>"@
}

/// A zero-sized SVG carrying the hatch pattern every facet references.
pub fn hidden_defs() -> (out: String)
    ensures
        out@ == defs_text(),
{
    let mut out: String = String::from_str("<svg class=\"defs\" width=\"0\" height=\"0\" aria-hidden=\"true\" focusable=\"false\"><defs><pattern id=\"");
    out.append(NO_DATA_PATTERN_ID);
    out.append("\" width=\"6\" height=\"6\" patternUnits=\"userSpaceOnUse\" patternTransform=\"rotate(45)\"><line x1=\"0\" y1=\"0\" x2=\"0\" y2=\"6\" class=\"hatch\"/></pattern></defs></svg>");
    out
}

/// How a colour level is drawn, in a plot and in the legend.
pub open spec fn level_rule_text(index: nat) -> Seq<char> {
    ".cells .c"@
        + text::decimal(index)
        + " { fill: var(--heat-"@
        + text::decimal(index)
        + "); }\n.swatch.s"@
        + text::decimal(index)
        + " { background: var(--heat-"@
        + text::decimal(index)
        + "); }\n"@
}

/// How a colour level is drawn, in a plot and in the legend.
fn level_rule(index: u64) -> (out: String)
    ensures
        out@ == level_rule_text(index as nat),
{
    let mut out: String = String::from_str(".cells .c");
    text::push_number(&mut out, index);
    out.append(" { fill: var(--heat-");
    text::push_number(&mut out, index);
    out.append("); }\n.swatch.s");
    text::push_number(&mut out, index);
    out.append(" { background: var(--heat-");
    text::push_number(&mut out, index);
    out.append("); }\n");
    out
}

/// How a coverage step is drawn, in a plot and in the legend.
pub open spec fn coverage_rule_text(index: nat) -> Seq<char> {
    ".coverage .cov"@
        + text::decimal(index)
        + " { fill: var(--cov-"@
        + text::decimal(index)
        + "); }\n.swatch.cov"@
        + text::decimal(index)
        + " { background: var(--cov-"@
        + text::decimal(index)
        + "); }\n"@
}

/// How a coverage step is drawn, in a plot and in the legend.
fn coverage_rule(index: u64) -> (out: String)
    ensures
        out@ == coverage_rule_text(index as nat),
{
    let mut out: String = String::from_str(".coverage .cov");
    text::push_number(&mut out, index);
    out.append(" { fill: var(--cov-");
    text::push_number(&mut out, index);
    out.append("); }\n.swatch.cov");
    text::push_number(&mut out, index);
    out.append(" { background: var(--cov-");
    text::push_number(&mut out, index);
    out.append("); }\n");
    out
}

/// How the first `count` colour levels are drawn.
pub open spec fn level_rules_text(count: nat) -> Seq<char>
    decreases count,
{
    if count == 0 {
        Seq::empty()
    } else {
        level_rules_text((count - 1) as nat) + level_rule_text((count - 1) as nat)
    }
}

fn level_rules(count: usize) -> (out: String)
    ensures
        out@ == level_rules_text(count as nat),
{
    let mut out: String = String::new();
    let mut i: usize = 0;
    while i < count
        invariant
            i <= count,
            out@ == level_rules_text(i as nat),
        decreases count - i,
    {
        out.append(level_rule(i as u64).as_str());
        i = i + 1;
    }
    out
}

/// How the first `count` coverage steps are drawn.
pub open spec fn coverage_rules_text(count: nat) -> Seq<char>
    decreases count,
{
    if count == 0 {
        Seq::empty()
    } else {
        coverage_rules_text((count - 1) as nat) + coverage_rule_text((count - 1) as nat)
    }
}

fn coverage_rules(count: usize) -> (out: String)
    ensures
        out@ == coverage_rules_text(count as nat),
{
    let mut out: String = String::new();
    let mut i: usize = 0;
    while i < count
        invariant
            i <= count,
            out@ == coverage_rules_text(i as nat),
        decreases count - i,
    {
        out.append(coverage_rule(i as u64).as_str());
        i = i + 1;
    }
    out
}

/// The complete stylesheet of the page.
pub open spec fn stylesheet_text(levels: nat) -> Seq<char> {
    layout::theme_text(levels)
        + level_rules_text(levels)
        + coverage_rules_text(color::COVERAGE_LEVELS as nat)
        + HEATMAP_CSS@
}

/// The complete stylesheet of the page.
pub fn stylesheet(levels: usize) -> (out: String)
    ensures
        out@ == stylesheet_text(levels as nat),
{
    let mut out: String = String::from_str(layout::theme_stylesheet(levels).as_str());
    out.append(level_rules(levels).as_str());
    out.append(coverage_rules(color::COVERAGE_LEVELS).as_str());
    out.append(HEATMAP_CSS);
    out
}

/// The plots, or a word where there is nothing to plot.
pub open spec fn plots_text(analysis: Analysis, drawings: Seq<FacetDrawing>) -> Seq<char> {
    if analysis.facets@.len() == 0 {
        "<p class=\"empty\">No readings matched the selected entity and date range, so there is nothing to plot.</p>"@
    } else {
        "<main class=\"facets\">"@ + facets_text(
            analysis.facets@,
            drawings,
            analysis.metric,
            analysis.facets@.len(),
        ) + "</main>"@
    }
}

fn plots(analysis: &Analysis, drawings: &[FacetDrawing]) -> (out: String)
    requires
        analysis.facets@.len() == drawings@.len(),
    ensures
        out@ == plots_text(*analysis, drawings@),
{
    if analysis.facets.len() == 0 {
        String::from_str(
            "<p class=\"empty\">No readings matched the selected entity and date range, so there is nothing to plot.</p>",
        )
    } else {
        let mut out: String = String::from_str("<main class=\"facets\">");
        out.append(
            draw_facets(analysis.facets.as_slice(), drawings, analysis.metric).as_str(),
        );
        out.append("</main>");
        out
    }
}

/// The History block, where the history is known.
pub open spec fn history_text(analysis: Analysis, options: PageOptions) -> Seq<char> {
    match options.coverage {
        Some((coverage, figures)) => layout::coverage_text(
            coverage,
            figures,
            options.tz@,
            analysis.grouping,
            Some(analysis.min_days),
        ),
        None => Seq::empty(),
    }
}

fn history(analysis: &Analysis, options: &PageOptions) -> (out: String)
    requires
        options.coverage matches Some((coverage, _)) ==> coverage.wf(),
    ensures
        out@ == history_text(*analysis, *options),
{
    match &options.coverage {
        Some((coverage, figures)) => layout::coverage_section(
            coverage,
            figures,
            &options.tz,
            analysis.grouping,
            Some(analysis.min_days),
        ),
        None => String::new(),
    }
}

/// Everything between the header and the footer. The plots come first: they are what the
/// report is for. The key and the caveats about the history follow, where they are still to
/// hand without standing in front of the data.
pub open spec fn body_text(
    analysis: Analysis,
    options: PageOptions,
    figures: PageFigures,
    drawings: Seq<FacetDrawing>,
) -> Seq<char> {
    metadata_text(analysis, options, figures) + plots_text(analysis, drawings) + legend_text(
        analysis,
        figures,
    ) + history_text(analysis, options)
}

/// Render the complete HTML document.
pub fn page(
    analysis: &Analysis,
    options: &PageOptions,
    figures: &PageFigures,
    drawings: &[FacetDrawing],
    version: &str,
) -> (out: String)
    requires
        analysis.facets@.len() == drawings@.len(),
        options.coverage matches Some((coverage, _)) ==> coverage.wf(),
    ensures
        exists|shell: Shell<'_>| #[trigger]
            layout::document_text(
                shell,
                body_text(*analysis, *options, *figures, drawings@),
            ) == out@ && shell.title@ == "Solar power likelihood - "@ + options.entity@
                && shell.lede@ == lede_text(*analysis) && shell.stylesheet@ == stylesheet_text(
                options.levels as nat,
            ) && shell.defs@ == defs_text() && shell.footer@ == footer_text(*analysis, version@),
{
    let mut title: String = String::from_str("Solar power likelihood - ");
    title.append(options.entity.as_str());
    let lede: String = lede(analysis);
    let stylesheet: String = stylesheet(options.levels);
    let defs: String = hidden_defs();
    let footer: String = footer(analysis, version);
    let mut body: String = metadata_list(analysis, options, figures);
    body.append(plots(analysis, drawings).as_str());
    body.append(legend(analysis, figures).as_str());
    body.append(history(analysis, options).as_str());
    let shell: Shell<'_> = Shell {
        title: title.as_str(),
        lede: lede.as_str(),
        stylesheet: stylesheet.as_str(),
        defs: defs.as_str(),
        footer: footer.as_str(),
    };
    let out: String = layout::document(&shell, body.as_str());
    assert(layout::document_text(shell, body_text(*analysis, *options, *figures, drawings@))
        == out@);
    out
}

/// The rules of the page beyond its palette.
pub const HEATMAP_CSS: &'static str = "
* { box-sizing: border-box; }
body {
  margin: 0;
  background: var(--plane);
  color: var(--ink);
  font-family: system-ui, -apple-system, 'Segoe UI', sans-serif;
  font-size: 15px;
  line-height: 1.5;
}
.page {
  min-height: 100vh;
  padding: 2rem clamp(1rem, 4vw, 3rem) 3rem;
  background: var(--plane);
  color: var(--ink);
}
.theme-input {
  position: absolute;
  width: 1px;
  height: 1px;
  opacity: 0;
}
svg.defs { position: absolute; }
h1 { font-size: 1.35rem; font-weight: 650; margin: 0 0 0.35rem; }
.heading {
  display: flex;
  flex-wrap: wrap;
  align-items: baseline;
  justify-content: space-between;
  gap: 0.5rem 1.5rem;
}
.visually-hidden {
  position: absolute;
  width: 1px;
  height: 1px;
  overflow: hidden;
  clip-path: inset(50%);
  white-space: nowrap;
}
.theme-switch {
  display: flex;
  margin: 0;
  padding: 2px;
  border: 1px solid var(--border);
  border-radius: 999px;
  background: var(--surface);
}
.theme-switch label {
  padding: 0.15rem 0.6rem;
  border-radius: 999px;
  font-size: 0.75rem;
  color: var(--ink-muted);
  cursor: pointer;
  user-select: none;
}
.theme-switch label:hover { color: var(--ink); }
#pv-theme-auto:checked ~ .page label[for='pv-theme-auto'],
#pv-theme-light:checked ~ .page label[for='pv-theme-light'],
#pv-theme-dark:checked ~ .page label[for='pv-theme-dark'] {
  background: var(--surface);
  color: var(--ink);
  box-shadow: inset 0 0 0 1px var(--border);
}
#pv-theme-auto:focus-visible ~ .page label[for='pv-theme-auto'],
#pv-theme-light:focus-visible ~ .page label[for='pv-theme-light'],
#pv-theme-dark:focus-visible ~ .page label[for='pv-theme-dark'] {
  outline: 2px solid var(--ink-secondary);
  outline-offset: 1px;
}
h2 { font-size: 0.85rem; font-weight: 600; margin: 0 0 0.6rem; color: var(--ink-secondary); }
.lede { margin: 0; max-width: 68ch; color: var(--ink-secondary); }
.meta dl {
  display: flex;
  flex-wrap: wrap;
  gap: 0.35rem 2rem;
  margin: 1.25rem 0 0;
  padding: 0.85rem 1rem;
  background: var(--surface);
  border: 1px solid var(--border);
  border-radius: 10px;
}
.meta dt { font-size: 0.7rem; text-transform: uppercase; letter-spacing: 0.04em; color: var(--ink-muted); margin: 0; }
.meta dd { margin: 0; font-variant-numeric: tabular-nums; }
.legend { margin: 1.25rem 0 0; padding: 0.85rem 1rem; background: var(--surface); border: 1px solid var(--border); border-radius: 10px; }
.scale { display: flex; flex-wrap: wrap; gap: 0.25rem 0.9rem; list-style: none; margin: 0; padding: 0; }
.scale.extra { margin-top: 0.5rem; }
.scale li { display: flex; align-items: center; gap: 0.35rem; font-size: 0.75rem; color: var(--ink-secondary); font-variant-numeric: tabular-nums; }
.swatch { width: 15px; height: 15px; border-radius: 3px; display: inline-block; border: 1px solid var(--border); }
.swatch.blank { background: var(--surface); }
.swatch.hatched {
  background: repeating-linear-gradient(45deg, var(--surface) 0 3px, var(--grid) 3px 5px);
}
.swatch.hatched.empty { opacity: 0.4; }
.note { margin: 0.6rem 0 0; font-size: 0.78rem; color: var(--ink-muted); max-width: 72ch; }
.facets {
  display: grid;
  grid-template-columns: repeat(auto-fit, minmax(360px, 1fr));
  gap: 1rem;
  margin-top: 1.25rem;
}
.facet {
  margin: 0;
  padding: 0.75rem 0.75rem 0.5rem;
  background: var(--surface);
  border: 1px solid var(--border);
  border-radius: 10px;
  min-width: 0;
}
.facet figcaption { display: flex; justify-content: space-between; align-items: baseline; gap: 0.75rem; margin-bottom: 0.35rem; }
.facet-name { font-weight: 600; }
.facet-stats { font-size: 0.72rem; color: var(--ink-muted); font-variant-numeric: tabular-nums; }
.facet-plot { width: 100%; height: auto; display: block; }
.facet-plot .grid line { stroke: var(--grid); stroke-width: 1; }
.facet-plot .axis line { stroke: var(--axis); stroke-width: 1; }
.facet-plot .tick { fill: var(--ink-muted); font-size: 11px; font-variant-numeric: tabular-nums; }
.facet-plot .readout {
  display: none;
  fill: var(--ink);
  font-size: 11px;
  font-variant-numeric: tabular-nums;
  pointer-events: none;
}
.facet-plot .cell:hover .readout { display: block; }
.facet-plot .cell:hover rect { stroke: var(--ink); stroke-width: 1; paint-order: stroke; }
.facet-plot .axis-title { fill: var(--ink-muted); font-size: 10px; }
.facet-plot .no-data { stroke: none; opacity: 0.4; }
.facet-plot .thin-data { stroke: none; opacity: 0.9; }
.facet-plot .hatch { stroke: var(--grid); stroke-width: 2; }
.facet-plot .strip-label { fill: var(--ink-muted); font-size: 9px; }
.facet-plot .coverage rect { stroke: none; }
.facet-plot .cov-none { fill: none; }
.coverage-summary {
  margin: 1.25rem 0 0;
  padding: 0.85rem 1rem;
  background: var(--surface);
  border: 1px solid var(--border);
  border-radius: 10px;
}
.coverage-summary p { margin: 0 0 0.35rem; color: var(--ink-secondary); max-width: 78ch; }
.coverage-summary p:last-child { margin-bottom: 0; }
.coverage-summary .caution { color: var(--ink); }
.swatch.cov-none { background: var(--surface); }
.table-view { margin-top: 0.5rem; font-size: 0.75rem; }
.table-view summary { cursor: pointer; color: var(--ink-muted); }
.table-scroll { overflow-x: auto; margin-top: 0.5rem; }
.table-view table { border-collapse: collapse; width: 100%; font-variant-numeric: tabular-nums; }
.table-view caption { text-align: left; color: var(--ink-muted); padding-bottom: 0.4rem; }
.table-view th, .table-view td { padding: 0.15rem 0.35rem; text-align: right; white-space: nowrap; }
.table-view thead th { color: var(--ink-muted); font-weight: 500; border-bottom: 1px solid var(--border); }
.table-view tbody th { text-align: left; font-weight: 500; color: var(--ink-secondary); }
.table-view tbody tr:nth-child(even) { background: var(--plane); }
.empty { margin-top: 1.25rem; color: var(--ink-secondary); }
.page-footer { margin-top: 2rem; font-size: 0.75rem; color: var(--ink-muted); }
";

// ---------------------------------------------------------------------------------------
// What the page says
// ---------------------------------------------------------------------------------------

/// A share is shown only for hours with enough evidence, and then it is that of the hour; any
/// other hour is dashed.
pub proof fn only_evidence_has_a_share(facet: Facet, shares: Seq<String>, hour: nat)
    requires
        hour < facet.columns@.len(),
        hour < shares.len(),
    ensures
        facet.columns@[hour as int].status is Sufficient ==> share_text(facet, shares, hour)
            == shares[hour as int]@,
        facet.columns@[hour as int].status is Thin ==> share_text(facet, shares, hour) == "-"@,
        facet.columns@[hour as int].status is Empty ==> share_text(facet, shares, hour) == "-"@,
        days_of(facet, hour) == facet.columns@[hour as int].days,
{
}

/// A colour level of the legend ranges from its own edge to that of the next level, and the
/// last one to the whole.
pub proof fn levels_range_to_the_next_edge(
    edges: Seq<String>,
    whole: Seq<char>,
    count: nat,
    i: int,
)
    requires
        0 <= i < count <= edges.len(),
    ensures
        text::contains_text(
            levels_text(edges, whole, count),
            level_item_text(
                i as nat,
                edges[i]@,
                if i + 1 == edges.len() {
                    whole
                } else {
                    edges[i + 1]@
                },
            ),
        ),
    decreases count,
{
    let last = count - 1;
    let empty = Seq::<char>::empty();
    let before = levels_text(edges, whole, last as nat);
    let item = level_item_text(
        last as nat,
        edges[last]@,
        if count < edges.len() {
            edges[count as int]@
        } else {
            whole
        },
    );
    assert(before + item + empty =~= before + item);
    if i < last {
        levels_range_to_the_next_edge(edges, whole, last as nat, i);
        assert(empty + before + item =~= before + item);
        text::more_text_takes_nothing_away(
            empty,
            before,
            item,
            level_item_text(i as nat, edges[i]@, edges[i + 1]@),
        );
    } else {
        text::parts_are_contained(before, item, empty);
    }
}

/// A coverage step of the legend is labelled with the share of the days it reaches up to: a
/// fifth more with every step, and most of them with the last.
pub proof fn coverage_items_say_how_far_they_reach(level: nat)
    requires
        level < 5,
    ensures
        level < 4 ==> text::contains_text(
            coverage_item_text(level),
            text::decimal(20 * (level + 1)) + "%"@,
        ),
        level == 4 ==> text::contains_text(coverage_item_text(level), "most days"@),
        text::contains_text(coverage_item_text(level), "cov"@ + text::decimal(level) + "\""@),
{
    reveal_strlit("");
    reveal_strlit("cov");
    reveal_strlit("\"");
    reveal_strlit("<li><span class=\"swatch cov");
    reveal_strlit("\" aria-hidden=\"true\"></span><span class=\"swatch-label\">");
    let item = coverage_item_text(level);
    let front = "<li><span class=\"swatch cov"@ + text::decimal(level)
        + "\" aria-hidden=\"true\"></span><span class=\"swatch-label\">"@;
    let back = "</span></li>"@;
    assert((level + 1) * 100 / 5 == 20 * (level + 1));
    if level < 4 {
        let share = text::decimal(20 * (level + 1)) + "%"@;
        text::parts_are_contained(front, share, back);
        assert(item =~= front + share + back);
    } else {
        text::parts_are_contained(front, "most days"@, back);
        assert(item =~= front + "most days"@ + back);
    }
    let class = "cov"@ + text::decimal(level) + "\""@;
    let at: int = 24;
    assert(item.subrange(at, at + class.len()) =~= class);
    assert(text::matches_at(item, class, at));
}

/// The rows of a table go from the highest power down: the last row given comes first and the
/// first one last.
pub proof fn rows_go_from_the_highest_power_down(facet: Facet, rows: Seq<TableRow>)
    requires
        rows.len() > 0,
    ensures
        ({
            let table = table_rows_text(facet, rows, rows.len());
            let top = table_row_text(facet, rows.last());
            let bottom = table_row_text(facet, rows[0]);
            &&& table.take(top.len() as int) == top
            &&& text::has_suffix(table, bottom)
        }),
{
    rows_start_with_the_last(facet, rows, rows.len());
    let table = table_rows_text(facet, rows, rows.len());
    let bottom = table_row_text(facet, rows[0]);
    assert(table.skip(table.len() - bottom.len()) =~= bottom);
}

proof fn rows_start_with_the_last(facet: Facet, rows: Seq<TableRow>, count: nat)
    requires
        0 < count <= rows.len(),
    ensures
        ({
            let table = table_rows_text(facet, rows, count);
            let top = table_row_text(facet, rows.last());
            top.len() <= table.len() && table.take(top.len() as int) == top
        }),
    decreases count,
{
    let table = table_rows_text(facet, rows, count);
    let top = table_row_text(facet, rows.last());
    if count > 1 {
        rows_start_with_the_last(facet, rows, (count - 1) as nat);
        let before = table_rows_text(facet, rows, (count - 1) as nat);
        assert(table.take(top.len() as int) =~= before.take(top.len() as int));
    } else {
        assert(table_rows_text(facet, rows, 0) =~= Seq::<char>::empty());
        assert(rows[rows.len() - 1] == rows.last());
        assert(table =~= top);
        assert(table.take(top.len() as int) =~= top);
    }
}

/// Every facet has its section, with its own drawing.
pub proof fn every_facet_has_its_section(
    facets: Seq<Facet>,
    drawings: Seq<FacetDrawing>,
    metric: Metric,
    count: nat,
    i: int,
)
    requires
        0 <= i < count <= facets.len(),
        facets.len() == drawings.len(),
    ensures
        text::contains_text(
            facets_text(facets, drawings, metric, count),
            facet_section_text(facets[i], drawings[i], metric),
        ),
    decreases count,
{
    let last = count - 1;
    let empty = Seq::<char>::empty();
    let before = facets_text(facets, drawings, metric, last as nat);
    let more = facet_section_text(facets[last], drawings[last], metric);
    assert(before + more + empty =~= before + more);
    if i < last {
        every_facet_has_its_section(facets, drawings, metric, last as nat, i);
        assert(empty + before + more =~= before + more);
        text::more_text_takes_nothing_away(
            empty,
            before,
            more,
            facet_section_text(facets[i], drawings[i], metric),
        );
    } else {
        text::parts_are_contained(before, more, empty);
    }
}

/// The caption of a facet says how many days it rests on, and out of how many where that is
/// known.
pub proof fn captions_say_how_many_days(facet: Facet)
    ensures
        ({
            let days = text::decimal(facet.days as nat);
            let caption = stats_text(facet);
            &&& caption.take(days.len() as int) == days
            &&& facet.possible_days > 0 ==> text::contains_text(
                caption,
                " of "@ + text::decimal(facet.possible_days as nat),
            )
            &&& facet.possible_days == 0 ==> caption == days + " days"@
            &&& text::has_suffix(caption, " days"@)
        }),
{
    reveal_strlit("");
    reveal_strlit(" days");
    let days = text::decimal(facet.days as nat);
    let caption = stats_text(facet);
    assert(caption.take(days.len() as int) =~= days);
    if facet.possible_days > 0 {
        let out_of = " of "@ + text::decimal(facet.possible_days as nat);
        text::parts_are_contained(days, out_of, " days"@);
        assert(caption =~= days + out_of + " days"@);
    } else {
        assert(caption =~= days + " days"@);
    }
    assert(caption.skip(caption.len() - 5) =~= " days"@);
}

/// A report without facets says that there is nothing to plot.
pub proof fn nothing_is_plotted_without_facets(
    analysis: Analysis,
    drawings: Seq<FacetDrawing>,
    others: Seq<FacetDrawing>,
)
    ensures
        analysis.facets@.len() == 0 ==> plots_text(analysis, drawings) == plots_text(
            analysis,
            others,
        ),
        analysis.facets@.len() > 0 ==> text::contains_text(
            plots_text(analysis, drawings),
            facets_text(analysis.facets@, drawings, analysis.metric, analysis.facets@.len()),
        ),
{
    if analysis.facets@.len() > 0 {
        text::parts_are_contained(
            "<main class=\"facets\">"@,
            facets_text(analysis.facets@, drawings, analysis.metric, analysis.facets@.len()),
            "</main>"@,
        );
    }
}

/// Every hour of day has its cell in a row of a table.
pub proof fn every_hour_has_its_share(facet: Facet, shares: Seq<String>, count: nat, i: nat)
    requires
        i < count,
    ensures
        text::contains_text(share_cells_text(facet, shares, count), share_cell_text(facet, shares, i)),
    decreases count,
{
    let last = (count - 1) as nat;
    let empty = Seq::<char>::empty();
    let before = share_cells_text(facet, shares, last);
    let more = share_cell_text(facet, shares, last);
    assert(before + more + empty =~= before + more);
    if i < last {
        every_hour_has_its_share(facet, shares, last, i);
        assert(empty + before + more =~= before + more);
        text::more_text_takes_nothing_away(empty, before, more, share_cell_text(facet, shares, i));
    } else {
        text::parts_are_contained(before, more, empty);
    }
}

/// Every hour of day has its cell in the row that says how many days back it.
pub proof fn every_hour_has_its_days(facet: Facet, count: nat, i: nat)
    requires
        i < count,
    ensures
        text::contains_text(days_cells_text(facet, count), days_cell_text(facet, i)),
    decreases count,
{
    let last = (count - 1) as nat;
    let empty = Seq::<char>::empty();
    let before = days_cells_text(facet, last);
    let more = days_cell_text(facet, last);
    assert(before + more + empty =~= before + more);
    if i < last {
        every_hour_has_its_days(facet, last, i);
        assert(empty + before + more =~= before + more);
        text::more_text_takes_nothing_away(empty, before, more, days_cell_text(facet, i));
    } else {
        text::parts_are_contained(before, more, empty);
    }
}

/// Every hour of day has its heading.
pub proof fn every_hour_has_its_heading(count: nat, i: nat)
    requires
        i < count,
    ensures
        text::contains_text(hour_headings_text(count), hour_heading_text(i)),
    decreases count,
{
    let last = (count - 1) as nat;
    let empty = Seq::<char>::empty();
    let before = hour_headings_text(last);
    let more = hour_heading_text(last);
    assert(before + more + empty =~= before + more);
    if i < last {
        every_hour_has_its_heading(last, i);
        assert(empty + before + more =~= before + more);
        text::more_text_takes_nothing_away(empty, before, more, hour_heading_text(i));
    } else {
        text::parts_are_contained(before, more, empty);
    }
}

/// Every coverage step has its place in the legend.
pub proof fn every_coverage_step_is_in_the_legend(count: nat, i: nat)
    requires
        i < count,
    ensures
        text::contains_text(coverage_items_text(count), coverage_item_text(i)),
    decreases count,
{
    let last = (count - 1) as nat;
    let empty = Seq::<char>::empty();
    let before = coverage_items_text(last);
    let more = coverage_item_text(last);
    assert(before + more + empty =~= before + more);
    if i < last {
        every_coverage_step_is_in_the_legend(last, i);
        assert(empty + before + more =~= before + more);
        text::more_text_takes_nothing_away(empty, before, more, coverage_item_text(i));
    } else {
        text::parts_are_contained(before, more, empty);
    }
}

/// Every colour level has its rule in the stylesheet.
pub proof fn every_level_has_its_rule(count: nat, i: nat)
    requires
        i < count,
    ensures
        text::contains_text(level_rules_text(count), level_rule_text(i)),
    decreases count,
{
    let last = (count - 1) as nat;
    let empty = Seq::<char>::empty();
    let before = level_rules_text(last);
    let more = level_rule_text(last);
    assert(before + more + empty =~= before + more);
    if i < last {
        every_level_has_its_rule(last, i);
        assert(empty + before + more =~= before + more);
        text::more_text_takes_nothing_away(empty, before, more, level_rule_text(i));
    } else {
        text::parts_are_contained(before, more, empty);
    }
}

/// Every coverage step has its rule in the stylesheet.
pub proof fn every_coverage_step_has_its_rule(count: nat, i: nat)
    requires
        i < count,
    ensures
        text::contains_text(coverage_rules_text(count), coverage_rule_text(i)),
    decreases count,
{
    let last = (count - 1) as nat;
    let empty = Seq::<char>::empty();
    let before = coverage_rules_text(last);
    let more = coverage_rule_text(last);
    assert(before + more + empty =~= before + more);
    if i < last {
        every_coverage_step_has_its_rule(last, i);
        assert(empty + before + more =~= before + more);
        text::more_text_takes_nothing_away(empty, before, more, coverage_rule_text(i));
    } else {
        text::parts_are_contained(before, more, empty);
    }
}

/// Every row of a table is shown.
pub proof fn every_row_is_shown(facet: Facet, rows: Seq<TableRow>, count: nat, i: int)
    requires
        0 <= i < count <= rows.len(),
    ensures
        text::contains_text(table_rows_text(facet, rows, count), table_row_text(facet, rows[rows.len() - 1 - i])),
    decreases count,
{
    let last = count - 1;
    let empty = Seq::<char>::empty();
    let before = table_rows_text(facet, rows, last as nat);
    let more = table_row_text(facet, rows[rows.len() - 1 - last]);
    assert(before + more + empty =~= before + more);
    if i < last {
        every_row_is_shown(facet, rows, last as nat, i);
        assert(empty + before + more =~= before + more);
        text::more_text_takes_nothing_away(empty, before, more, table_row_text(facet, rows[rows.len() - 1 - i]));
    } else {
        text::parts_are_contained(before, more, empty);
    }
}

/// A colour level is filled with the colour of its own number, in the plots and in the legend.
pub proof fn levels_are_filled_with_their_own_colour(index: nat)
    ensures
        ({
            let number = text::decimal(index);
            &&& level_rule_text(index) == ".cells .c"@ + number + " { fill: var(--heat-"@ + number
                + "); }\n"@ + (".swatch.s"@ + number + " { background: var(--heat-"@ + number
                + "); }\n"@)
            &&& coverage_rule_text(index) == ".coverage .cov"@ + number + " { fill: var(--cov-"@
                + number + "); }\n"@ + (".swatch.cov"@ + number + " { background: var(--cov-"@
                + number + "); }\n"@)
        }),
{
    reveal_strlit("); }\n");
    reveal_strlit(".swatch.s");
    reveal_strlit("); }\n.swatch.s");
    reveal_strlit(".swatch.cov");
    reveal_strlit("); }\n.swatch.cov");
    let number = text::decimal(index);
    assert("); }\n.swatch.s"@ =~= "); }\n"@ + ".swatch.s"@);
    assert("); }\n.swatch.cov"@ =~= "); }\n"@ + ".swatch.cov"@);
    assert(level_rule_text(index) =~= ".cells .c"@ + number + " { fill: var(--heat-"@ + number
        + "); }\n"@ + (".swatch.s"@ + number + " { background: var(--heat-"@ + number
        + "); }\n"@));
    assert(coverage_rule_text(index) =~= ".coverage .cov"@ + number + " { fill: var(--cov-"@
        + number + "); }\n"@ + (".swatch.cov"@ + number + " { background: var(--cov-"@ + number
        + "); }\n"@));
}

/// An hour that a facet has no column for was seen on no day and has no share.
pub proof fn missing_hours_have_no_days(facet: Facet, shares: Seq<String>, hour: nat)
    requires
        hour >= facet.columns@.len(),
    ensures
        days_of(facet, hour) == 0,
        share_text(facet, shares, hour) == "-"@,
{
}

} // verus!
