//! The document shell both reports share: the theme switch, the palette, the page
//! chrome, the metadata card and the History block.
//!
//! Two tools read the same database and answer different questions, and a reader moving
//! between their reports should not have to learn a second page. Everything here is
//! deliberately question-agnostic; what is specific to a report lives beside that
//! report's markup.

use vstd::prelude::*;

use crate::coverage;
use crate::coverage::{Coverage, Gap};
use crate::model::Grouping;
use crate::occurrence;
use crate::render;
use crate::render::color;
use crate::text;
use crate::timeutil;
use crate::timeutil::{CalendarDate, Zone};

verus! {

/// Ids the stylesheet keys off; kept beside the markup that emits them.
pub const THEME_AUTO_ID: &'static str = "pv-theme-auto";

pub const THEME_LIGHT_ID: &'static str = "pv-theme-light";

pub const THEME_DARK_ID: &'static str = "pv-theme-dark";

/// Everything the shell needs to wrap a report body.
#[derive(Debug)]
pub struct Shell<'a> {
    /// Document title, also the page heading.
    pub title: &'a str,
    /// One sentence under the heading saying what the reader is looking at.
    pub lede: &'a str,
    /// The complete stylesheet, usually [`theme_stylesheet`] + [`CHROME_CSS`] + the
    /// report's own rules.
    pub stylesheet: &'a str,
    /// Markup placed before the theme radios, for SVG `<defs>` and the like.
    pub defs: &'a str,
    /// The line at the foot of the page.
    pub footer: &'a str,
}

/// A report body wrapped in the shared document.
pub open spec fn document_text(shell: Shell<'_>, body: Seq<char>) -> Seq<char> {
    "<!doctype html>\n<html lang=\"en\">\n<head>\n<meta charset=\"utf-8\">\n<meta name=\"viewport\" content=\"width=device-width, initial-scale=1\">\n<title>"@
        + render::escaped(shell.title@)
        + "</title>\n<style>\n"@
        + shell.stylesheet@
        + "\n</style>\n</head>\n<body>\n"@
        + shell.defs@
        + theme_inputs_text()
        + "<div class=\"page\"><header class=\"page-header\"><div class=\"heading\"><h1>"@
        + render::escaped(shell.title@)
        + "</h1>"@
        + theme_switch_text()
        + "</div><p class=\"lede\">"@
        + render::escaped(shell.lede@)
        + "</p></header>"@
        + body
        + "<footer class=\"page-footer\"><p>"@
        + render::escaped(shell.footer@)
        + "</p></footer></div>\n</body>\n</html>\n"@
}

/// A report body wrapped in the shared document.
pub fn document(shell: &Shell<'_>, body: &str) -> (out: String)
    ensures
        out@ == document_text(*shell, body@),
{
    let mut out: String = String::from_str("<!doctype html>\n<html lang=\"en\">\n<head>\n<meta charset=\"utf-8\">\n<meta name=\"viewport\" content=\"width=device-width, initial-scale=1\">\n<title>");
    out.append(render::escape(shell.title).as_str());
    out.append("</title>\n<style>\n");
    out.append(shell.stylesheet);
    out.append("\n</style>\n</head>\n<body>\n");
    out.append(shell.defs);
    out.append(theme_inputs().as_str());
    out.append("<div class=\"page\"><header class=\"page-header\"><div class=\"heading\"><h1>");
    out.append(render::escape(shell.title).as_str());
    out.append("</h1>");
    out.append(theme_switch().as_str());
    out.append("</div><p class=\"lede\">");
    out.append(render::escape(shell.lede).as_str());
    out.append("</p></header>");
    out.append(body);
    out.append("<footer class=\"page-footer\"><p>");
    out.append(render::escape(shell.footer).as_str());
    out.append("</p></footer></div>\n</body>\n</html>\n");
    out
}

/// The radios that drive the colour theme.
pub open spec fn theme_inputs_text() -> Seq<char> {
    "<input type=\"radio\" class=\"theme-input\" name=\"pv-theme\" id=\""@
        + THEME_AUTO_ID@
        + "\" checked><input type=\"radio\" class=\"theme-input\" name=\"pv-theme\" id=\""@
        + THEME_LIGHT_ID@
        + "\"><input type=\"radio\" class=\"theme-input\" name=\"pv-theme\" id=\""@
        + THEME_DARK_ID@
        + "\">"@
}

/// The radios that drive the colour theme.
/// 
/// They sit at the top of the body, before everything they style, because the stylesheet
/// selects the page with `#id:checked ~ .page`. A sibling selector rather than `:has()`:
/// this has worked in every browser since custom properties themselves, whereas `:has()`
/// only reached Firefox at the end of 2023, and a report is often opened in whatever
/// browser happens to be to hand. Either way the page needs no JavaScript.
pub fn theme_inputs() -> (out: String)
    ensures
        out@ == theme_inputs_text(),
{
    let mut out: String = String::from_str("<input type=\"radio\" class=\"theme-input\" name=\"pv-theme\" id=\"");
    out.append(THEME_AUTO_ID);
    out.append("\" checked><input type=\"radio\" class=\"theme-input\" name=\"pv-theme\" id=\"");
    out.append(THEME_LIGHT_ID);
    out.append("\"><input type=\"radio\" class=\"theme-input\" name=\"pv-theme\" id=\"");
    out.append(THEME_DARK_ID);
    out.append("\">");
    out
}

/// The visible switch.
pub open spec fn theme_switch_text() -> Seq<char> {
    "<fieldset class=\"theme-switch\"><legend class=\"visually-hidden\">Colour theme</legend><label for=\""@
        + THEME_AUTO_ID@
        + "\">Auto</label><label for=\""@
        + THEME_LIGHT_ID@
        + "\">Light</label><label for=\""@
        + THEME_DARK_ID@
        + "\">Dark</label></fieldset>"@
}

/// The visible switch. Labels can live anywhere, so the control sits in the header while
/// the radios it drives stay at the top of the body.
pub fn theme_switch() -> (out: String)
    ensures
        out@ == theme_switch_text(),
{
    let mut out: String = String::from_str("<fieldset class=\"theme-switch\"><legend class=\"visually-hidden\">Colour theme</legend><label for=\"");
    out.append(THEME_AUTO_ID);
    out.append("\">Auto</label><label for=\"");
    out.append(THEME_LIGHT_ID);
    out.append("\">Light</label><label for=\"");
    out.append(THEME_DARK_ID);
    out.append("\">Dark</label></fieldset>");
    out
}

/// The first `count` entries of a definition list.
pub open spec fn entries_text(entries: Seq<(String, String)>, count: nat) -> Seq<char>
    decreases count,
{
    if count == 0 {
        Seq::empty()
    } else {
        entries_text(entries, (count - 1) as nat) + entry_text(
            entries[count - 1].0@,
            entries[count - 1].1@,
        )
    }
}

/// One entry of a definition list.
pub open spec fn entry_text(key: Seq<char>, value: Seq<char>) -> Seq<char> {
    "<div><dt>"@
        + render::escaped(key)
        + "</dt><dd>"@
        + render::escaped(value)
        + "</dd></div>"@
}

/// One entry of a definition list.
fn entry(key: &str, value: &str) -> (out: String)
    ensures
        out@ == entry_text(key@, value@),
{
    let mut out: String = String::from_str("<div><dt>");
    out.append(render::escape(key).as_str());
    out.append("</dt><dd>");
    out.append(render::escape(value).as_str());
    out.append("</dd></div>");
    out
}

/// The definition list at the top of a report.
pub open spec fn metadata_text(entries: Seq<(String, String)>) -> Seq<char> {
    "<section class=\"meta\"><dl>"@ + entries_text(entries, entries.len()) + "</dl></section>"@
}

/// The entries of a definition list.
pub fn list_entries(entries: &[(String, String)]) -> (list: String)
    ensures
        list@ == entries_text(entries@, entries@.len()),
{
    let mut list: String = String::new();
    let mut i: usize = 0;
    while i < entries.len()
        invariant
            i <= entries@.len(),
            list@ == entries_text(entries@, i as nat),
        decreases entries@.len() - i,
    {
        list.append(entry(entries[i].0.as_str(), entries[i].1.as_str()).as_str());
        i = i + 1;
    }
    list
}

/// The definition list at the top of a report: what was read, and how.
pub fn metadata_list(entries: &[(String, String)]) -> (out: String)
    ensures
        out@ == metadata_text(entries@),
{
    let mut out: String = String::from_str("<section class=\"meta\"><dl>");
    out.append(list_entries(entries).as_str());
    out.append("</dl></section>");
    out
}

// ---------------------------------------------------------------------------------------
// The History block
// ---------------------------------------------------------------------------------------

/// The figures of a History block that are stated as rounded numbers.
#[derive(Debug)]
pub struct CoverageFigures {
    /// Share of the calendar span that carries any data, as a percentage.
    pub day_share: String,
    /// The threshold outages are reported from, as a duration.
    pub threshold: String,
    /// Total time inside reported outages, as a duration.
    pub missing: String,
    /// How long the longest outage lasted, as a duration.
    pub longest: String,
}

/// The dates a history spans.
pub open spec fn dates_text(
    first: Option<CalendarDate>,
    last: Option<CalendarDate>,
    unknown: Seq<char>,
) -> Seq<char> {
    match (first, last) {
        (Some(first), Some(last)) => first.iso_text() + " to "@ + last.iso_text(),
        _ => unknown,
    }
}

/// The dates a history spans, or `unknown`.
pub fn describe_dates(
    first: Option<CalendarDate>,
    last: Option<CalendarDate>,
    unknown: &str,
) -> (out: String)
    ensures
        out@ == dates_text(first, last, unknown@),
{
    match (first, last) {
        (Some(first), Some(last)) => {
            let mut out: String = first.to_string();
            out.append(" to ");
            out.append(last.to_string().as_str());
            out
        },
        _ => String::from_str(unknown),
    }
}

/// The first local date a history covers.
pub open spec fn first_date(coverage: Coverage, zone: Seq<char>) -> Option<CalendarDate> {
    timeutil::date_of_day(
        timeutil::local_time_at(zone, coverage.first_ts as int).parts.day as int,
    )
}

/// The last local date a history covers.
pub open spec fn last_date(coverage: Coverage, zone: Seq<char>) -> Option<CalendarDate> {
    timeutil::date_of_day(
        coverage::last_day_of(zone, coverage.first_ts as int, coverage.last_ts as int),
    )
}

/// "3 d 4 h from 2025-07-03 to 2025-07-06".
pub open spec fn gap_text(gap: Gap, duration: Seq<char>, zone: Seq<char>) -> Seq<char> {
    duration
        + " from "@
        + timeutil::date_text(zone, gap.start_ts as int)
        + " to "@
        + timeutil::date_text(zone, gap.end_ts as int)
}

/// "3 d 4 h from 2025-07-03 to 2025-07-06".
pub fn describe_gap(gap: &Gap, duration: &str, tz: &Zone) -> (out: String)
    ensures
        out@ == gap_text(*gap, duration@, tz@),
{
    let mut out: String = String::from_str(duration);
    out.append(" from ");
    out.append(timeutil::format_day(gap.start_ts, tz).as_str());
    out.append(" to ");
    out.append(timeutil::format_day(gap.end_ts, tz).as_str());
    out
}

/// What the recorder covered, in one sentence.
pub open spec fn span_text(coverage: Coverage, figures: CoverageFigures, zone: Seq<char>) -> Seq<char> {
    "<h2>History</h2><p>Covers <strong>"@
        + render::escaped(dates_text(first_date(coverage, zone), last_date(coverage, zone), "an unknown span"@))
        + "</strong> ("@
        + text::decimal(coverage.span_days as nat)
        + " days), with data on <strong>"@
        + text::decimal(coverage.observed_days as nat)
        + " of them</strong> ("@
        + render::escaped(figures.day_share@)
        + " of the span)"@
        + (if coverage.full_days < coverage.observed_days { ", "@
        + text::decimal(coverage.full_days as nat)
        + " of them right through the day"@ } else { Seq::empty() })
        + ".</p>"@
}

/// What the recorder covered, in one sentence.
fn span_paragraph(coverage: &Coverage, figures: &CoverageFigures, tz: &Zone) -> (out: String)
    ensures
        out@ == span_text(*coverage, *figures, tz@),
{
    let (first, last) = coverage.local_dates(tz);
    let dates: String = describe_dates(first, last, "an unknown span");
    let part_1: String = if coverage.full_days < coverage.observed_days {
        let mut part: String = String::from_str(", ");
        text::push_number(&mut part, coverage.full_days as u64);
        part.append(" of them right through the day");
        part
    } else {
        String::new()
    };
    let mut out: String = String::from_str("<h2>History</h2><p>Covers <strong>");
    out.append(render::escape(dates.as_str()).as_str());
    out.append("</strong> (");
    text::push_number(&mut out, coverage.span_days as u64);
    out.append(" days), with data on <strong>");
    text::push_number(&mut out, coverage.observed_days as u64);
    out.append(" of them</strong> (");
    out.append(render::escape(figures.day_share.as_str()).as_str());
    out.append(" of the span)");
    out.append(part_1.as_str());
    out.append(".</p>");
    out
}

/// Where the outages are.
pub open spec fn outages_text(
    coverage: Coverage,
    figures: CoverageFigures,
    zone: Seq<char>,
) -> Seq<char> {
    if coverage.gaps@.len() == 0 {
        "<p>No outage longer than "@
        + render::escaped(figures.threshold@)
        + " interrupts it.</p>"@
    } else {
        "<p>"@
        + text::decimal(coverage.gaps@.len())
        + (if coverage.gaps@.len() == 1 { " outage"@ } else { " outages"@ })
        + " longer than "@
        + render::escaped(figures.threshold@)
        + " ("@
        + render::escaped(figures.missing@)
        + " missing in total). The longest ran "@
        + render::escaped(gap_text(coverage.gaps@[coverage::longest_at(coverage.gaps@)], figures.longest@, zone))
        + ".</p>"@
    }
}

/// Where the outages are.
fn outages_paragraph(coverage: &Coverage, figures: &CoverageFigures, tz: &Zone) -> (out: String)
    requires
        coverage.wf(),
    ensures
        out@ == outages_text(*coverage, *figures, tz@),
{
    match coverage.longest_gap() {
        None => {
            let mut out: String = String::from_str("<p>No outage longer than ");
            out.append(render::escape(figures.threshold.as_str()).as_str());
            out.append(" interrupts it.</p>");
            out
        },
        Some(longest) => {
            let ran: String = describe_gap(longest, figures.longest.as_str(), tz);
            let mut out: String = String::from_str("<p>");
            text::push_number(&mut out, coverage.gaps.len() as u64);
            out.append(if coverage.gaps.len() == 1 { " outage" } else { " outages" });
            out.append(" longer than ");
            out.append(render::escape(figures.threshold.as_str()).as_str());
            out.append(" (");
            out.append(render::escape(figures.missing.as_str()).as_str());
            out.append(" missing in total). The longest ran ");
            out.append(render::escape(ran.as_str()).as_str());
            out.append(".</p>");
            out
        },
    }
}

/// What a reader should be warned about.
pub open spec fn cautions_text(
    coverage: Coverage,
    grouping: Grouping,
    min_days: Option<u32>,
) -> Seq<char> {
    (if coverage.missing_facets@.len() > 0 {
        "<p>No data at all for "@ + render::escaped(text::joined(coverage.missing_facets@, ", "@))
            + ".</p>"@
    } else {
        Seq::empty()
    }) + (if coverage.span_days < 365 {
        "<p class=\"caution\">Less than a year of history: each "@
        + grouping.word()
        + " rests on a single season rather than an average of several, and the "@
        + grouping.word()
        + "s that are absent simply have not been recorded yet.</p>"@
    } else {
        Seq::empty()
    }) + (if coverage.sparse() {
        "<p class=\"caution\">Large parts of the span were never recorded, so treat the percentages as indicative.</p>"@
    } else {
        Seq::empty()
    }) + (match min_days {
        Some(days) => if coverage.span_days < 365 || coverage.sparse() {
            "<p>Every percentage in the plots above is conditional on the time that was actually recorded: a sunny week the recorder missed is not represented at all. The strip under each plot shows how many days back each hour, and hours backed by fewer than "@
        + text::decimal(days as nat)
        + " days are hatched rather than coloured.</p>"@
        } else {
            Seq::empty()
        },
        None => Seq::empty(),
    })
}

/// What a reader should be warned about.
fn cautions(coverage: &Coverage, grouping: Grouping, min_days: Option<u32>) -> (out: String)
    requires
        coverage.wf(),
    ensures
        out@ == cautions_text(*coverage, grouping, min_days),
{
    let absent: String = if coverage.missing_facets.len() > 0 {
        let list: String = text::join(coverage.missing_facets.as_slice(), ", ");
        let mut part: String = String::from_str("<p>No data at all for ");
        part.append(render::escape(list.as_str()).as_str());
        part.append(".</p>");
        part
    } else {
        String::new()
    };
    let short: String = if !coverage.covers_full_year() {
        let word: String = grouping.to_string();
        let mut part: String = String::from_str("<p class=\"caution\">Less than a year of history: each ");
        part.append(word.as_str());
        part.append(" rests on a single season rather than an average of several, and the ");
        part.append(word.as_str());
        part.append("s that are absent simply have not been recorded yet.</p>");
        part
    } else {
        String::new()
    };
    let sparse: String = if coverage.is_sparse() {
        String::from_str(
            "<p class=\"caution\">Large parts of the span were never recorded, so treat the percentages as indicative.</p>",
        )
    } else {
        String::new()
    };
    let conditional: String = match min_days {
        Some(days) => if coverage.needs_caution() {
            let mut part: String = String::from_str("<p>Every percentage in the plots above is conditional on the time that was actually recorded: a sunny week the recorder missed is not represented at all. The strip under each plot shows how many days back each hour, and hours backed by fewer than ");
            text::push_number(&mut part, days as u64);
            part.append(" days are hatched rather than coloured.</p>");
            part
        } else {
            String::new()
        },
        None => String::new(),
    };
    let mut out: String = absent;
    out.append(short.as_str());
    out.append(sparse.as_str());
    out.append(conditional.as_str());
    out
}

/// The block that says what the recorder really covered.
pub open spec fn coverage_text(
    coverage: Coverage,
    figures: CoverageFigures,
    zone: Seq<char>,
    grouping: Grouping,
    min_days: Option<u32>,
) -> Seq<char> {
    "<section class=\"coverage-summary\">"@ + span_text(coverage, figures, zone) + outages_text(
        coverage,
        figures,
        zone,
    ) + cautions_text(coverage, grouping, min_days) + "</section>"@
}

/// The block that says what the recorder really covered.
///
/// A report built from a handful of scattered days is not wrong, but it means something
/// different from one built from two solid years, and the reader cannot tell the two
/// apart from the figures alone. `min_days` is the heatmap's evidence threshold; a report
/// that has no such rule passes `None`.
pub fn coverage_section(
    coverage: &Coverage,
    figures: &CoverageFigures,
    tz: &Zone,
    grouping: Grouping,
    min_days: Option<u32>,
) -> (out: String)
    requires
        coverage.wf(),
    ensures
        out@ == coverage_text(*coverage, *figures, tz@, grouping, min_days),
{
    let mut out: String = String::from_str("<section class=\"coverage-summary\">");
    out.append(span_paragraph(coverage, figures, tz).as_str());
    out.append(outages_paragraph(coverage, figures, tz).as_str());
    out.append(cautions(coverage, grouping, min_days).as_str());
    out.append("</section>");
    out
}

// ---------------------------------------------------------------------------------------
// The stylesheet
// ---------------------------------------------------------------------------------------

/// The colours of the likelihood ramp at so many levels.
pub open spec fn heat_colours(levels: nat, dark: bool) -> Seq<Seq<char>> {
    let count = color::allowed_levels(levels);
    Seq::new(count, |i: int| color::colour_at(dark, color::position(i as nat, count)))
}

/// The colours of the coverage ramp.
pub open spec fn coverage_colours(dark: bool) -> Seq<Seq<char>> {
    Seq::new(
        color::COVERAGE_LEVELS as nat,
        |i: int|
            if dark {
                color::COVERAGE_DARK@[i]@
            } else {
                color::COVERAGE_LIGHT@[i]@
            },
    )
}

/// The first `count` colours as custom property declarations.
pub open spec fn declarations(name: Seq<char>, colours: Seq<Seq<char>>, count: nat) -> Seq<char>
    decreases count,
{
    if count == 0 {
        Seq::empty()
    } else {
        declarations(name, colours, (count - 1) as nat) + declaration_text(
            name,
            (count - 1) as nat,
            colours[count - 1],
        )
    }
}

/// One colour as a custom property declaration.
pub open spec fn declaration_text(name: Seq<char>, index: nat, colour: Seq<char>) -> Seq<char> {
    "  --"@
        + name
        + "-"@
        + text::decimal(index)
        + ": "@
        + colour
        + ";\n"@
}

/// One colour as a custom property declaration.
fn declaration(name: &str, index: u64, colour: &str) -> (out: String)
    ensures
        out@ == declaration_text(name@, index as nat, colour@),
{
    let mut out: String = String::from_str("  --");
    out.append(name);
    out.append("-");
    text::push_number(&mut out, index);
    out.append(": ");
    out.append(colour);
    out.append(";\n");
    out
}

/// Colours as custom property declarations.
fn declare(name: &str, colours: &[String]) -> (out: String)
    ensures
        out@ == declarations(name@, coverage::texts(colours@), colours@.len()),
{
    let mut out: String = String::new();
    let mut i: usize = 0;
    while i < colours.len()
        invariant
            i <= colours@.len(),
            out@ == declarations(name@, coverage::texts(colours@), i as nat),
        decreases colours@.len() - i,
    {
        out.append(declaration(name, i as u64, colours[i].as_str()).as_str());
        i = i + 1;
    }
    out
}

/// The colours of the coverage ramp.
fn coverage_ramp(dark: bool) -> (colours: Vec<String>)
    ensures
        coverage::texts(colours@) == coverage_colours(dark),
{
    let mut colours: Vec<String> = Vec::new();
    let mut i: usize = 0;
    while i < color::COVERAGE_LEVELS
        invariant
            i <= color::COVERAGE_LEVELS,
            colours@.len() == i,
            forall|k: int| 0 <= k < i ==> (#[trigger] colours@[k])@ == coverage_colours(dark)[k],
        decreases color::COVERAGE_LEVELS - i,
    {
        colours.push(
            String::from_str(
                if dark {
                    color::COVERAGE_DARK[i]
                } else {
                    color::COVERAGE_LIGHT[i]
                },
            ),
        );
        i = i + 1;
    }
    assert(coverage::texts(colours@) =~= coverage_colours(dark));
    colours
}

/// Both ramps as custom property declarations.
pub open spec fn ramps_text(levels: nat, dark: bool) -> Seq<char> {
    declarations("heat"@, heat_colours(levels, dark), color::allowed_levels(levels))
        + declarations("cov"@, coverage_colours(dark), color::COVERAGE_LEVELS as nat)
}

/// Both ramps as custom property declarations.
fn declare_ramps(levels: usize, dark: bool) -> (out: String)
    ensures
        out@ == ramps_text(levels as nat, dark),
{
    let heat: Vec<String> = color::ramp(levels, dark);
    assert(coverage::texts(heat@) =~= heat_colours(levels as nat, dark));
    let covered: Vec<String> = coverage_ramp(dark);
    assert(coverage_colours(dark).len() == color::COVERAGE_LEVELS);
    assert(covered@.len() == coverage::texts(covered@).len());
    let mut out: String = declare("heat", heat.as_slice());
    out.append(declare("cov", covered.as_slice()).as_str());
    out
}

/// The light palette, as CSS custom property declarations.
pub open spec fn light_text(levels: nat) -> Seq<char> {
    "  color-scheme: light;\n  --surface: #fcfcfb;\n  --plane: #f9f9f7;\n  --ink: #0b0b0b;\n  --ink-secondary: #52514e;\n  --ink-muted: #898781;\n  --grid: #e1e0d9;\n  --axis: #c3c2b7;\n  --border: rgba(11, 11, 11, 0.10);\n"@
        + ramps_text(levels, false)
}

/// The light palette, as CSS custom property declarations.
pub fn light_tokens(levels: usize) -> (out: String)
    ensures
        out@ == light_text(levels as nat),
{
    let mut out: String = String::from_str("  color-scheme: light;\n  --surface: #fcfcfb;\n  --plane: #f9f9f7;\n  --ink: #0b0b0b;\n  --ink-secondary: #52514e;\n  --ink-muted: #898781;\n  --grid: #e1e0d9;\n  --axis: #c3c2b7;\n  --border: rgba(11, 11, 11, 0.10);\n");
    out.append(declare_ramps(levels, false).as_str());
    out
}

/// The dark palette, stepped for the dark surface rather than flipped.
pub open spec fn dark_text(levels: nat) -> Seq<char> {
    "  color-scheme: dark;\n  --surface: #1a1a19;\n  --plane: #0d0d0d;\n  --ink: #ffffff;\n  --ink-secondary: #c3c2b7;\n  --ink-muted: #898781;\n  --grid: #2c2c2a;\n  --axis: #383835;\n  --border: rgba(255, 255, 255, 0.10);\n"@
        + ramps_text(levels, true)
}

/// The dark palette, stepped for the dark surface rather than flipped.
pub fn dark_tokens(levels: usize) -> (out: String)
    ensures
        out@ == dark_text(levels as nat),
{
    let mut out: String = String::from_str("  color-scheme: dark;\n  --surface: #1a1a19;\n  --plane: #0d0d0d;\n  --ink: #ffffff;\n  --ink-secondary: #c3c2b7;\n  --ink-muted: #898781;\n  --grid: #2c2c2a;\n  --axis: #383835;\n  --border: rgba(255, 255, 255, 0.10);\n");
    out.append(declare_ramps(levels, true).as_str());
    out
}

/// The theme half of a stylesheet.
pub open spec fn theme_text(levels: nat) -> Seq<char> {
    ":root {\n"@
        + light_text(levels)
        + "}\n@media (prefers-color-scheme: dark) {\n  #"@
        + THEME_AUTO_ID@
        + ":checked ~ .page {\n"@
        + dark_text(levels)
        + "  }\n  :root {\n"@
        + dark_text(levels)
        + "  }\n}\n#"@
        + THEME_LIGHT_ID@
        + ":checked ~ .page {\n"@
        + light_text(levels)
        + "}\n#"@
        + THEME_DARK_ID@
        + ":checked ~ .page {\n"@
        + dark_text(levels)
        + "}\n"@
}

/// The theme half of a stylesheet: the palette, the system preference, and the override.
/// 
/// Light is the base, and the system preference swaps it. This pair drives the page chrome
/// (the area behind an overscroll, for instance) and is what "Auto" means. An explicit choice
/// overrides both, in either direction: its rules are more specific than `:root`, and apply
/// whatever the system setting says.
pub fn theme_stylesheet(levels: usize) -> (out: String)
    ensures
        out@ == theme_text(levels as nat),
{
    let light: String = light_tokens(levels);
    let dark: String = dark_tokens(levels);
    let mut out: String = String::from_str(":root {\n");
    out.append(light.as_str());
    out.append("}\n@media (prefers-color-scheme: dark) {\n  #");
    out.append(THEME_AUTO_ID);
    out.append(":checked ~ .page {\n");
    out.append(dark.as_str());
    out.append("  }\n  :root {\n");
    out.append(dark.as_str());
    out.append("  }\n}\n#");
    out.append(THEME_LIGHT_ID);
    out.append(":checked ~ .page {\n");
    out.append(light.as_str());
    out.append("}\n#");
    out.append(THEME_DARK_ID);
    out.append(":checked ~ .page {\n");
    out.append(dark.as_str());
    out.append("}\n");
    out
}

// ---------------------------------------------------------------------------------------
// What the stylesheet holds
// ---------------------------------------------------------------------------------------

/// What only the light palette holds: the start of `light`.
spec fn light_mark() -> (char, char) {
    (' ', 'l')
}

/// What only the dark palette holds: the end of `dark;`.
spec fn dark_mark() -> (char, char) {
    ('k', ';')
}

/// What every parent selector holds: the end of `:has(`.
spec fn parent_mark() -> (char, char) {
    ('s', '(')
}

/// Whether a piece of the stylesheet is neither palette and selects no parent.
spec fn is_neutral(piece: Seq<char>) -> bool {
    &&& occurrence::is_unmarked(piece, light_mark())
    &&& occurrence::is_unmarked(piece, dark_mark())
    &&& occurrence::is_unmarked(piece, parent_mark())
}

/// Whether a text lacks a character of each mark.
spec fn is_plain(piece: Seq<char>) -> bool {
    &&& occurrence::lacks(piece, 'l')
    &&& occurrence::lacks(piece, 'k')
    &&& occurrence::lacks(piece, 's')
}

proof fn colours_are_plain(colour: Seq<char>)
    requires
        color::is_colour(colour),
    ensures
        is_plain(colour),
{
    assert forall|i: int| 0 <= i < colour.len() implies #[trigger] colour[i] != 'l' && colour[i]
        != 'k' && colour[i] != 's' by {}
}

/// A declaration is plain where its name and its colour are.
proof fn declarations_are_plain(name: Seq<char>, colours: Seq<Seq<char>>, count: nat)
    requires
        is_plain(name),
        count <= colours.len(),
        forall|i: int| 0 <= i < count ==> color::is_colour(#[trigger] colours[i]),
    ensures
        is_plain(declarations(name, colours, count)),
        count > 0 ==> declarations(name, colours, count).len() > 0 && declarations(
            name,
            colours,
            count,
        )[0] == ' ',
    decreases count,
{
    if count > 0 {
        let index = (count - 1) as nat;
        declarations_are_plain(name, colours, index);
        reveal_strlit("  --");
        reveal_strlit("-");
        reveal_strlit(": ");
        reveal_strlit(";\n");
        text::decimals_are_digits(index);
        colours_are_plain(colours[index as int]);
        let number = text::decimal(index);
        assert forall|i: int| 0 <= i < number.len() implies #[trigger] number[i] != 'l'
            && number[i] != 'k' && number[i] != 's' by {}
        let one = declaration_text(name, index, colours[index as int]);
        let before = declarations(name, colours, index);
        assert(one[0] == ' ');
        assert(is_plain(one));
        assert(is_plain(before + one));
        assert((before + one)[0] == if before.len() > 0 {
            before[0]
        } else {
            one[0]
        });
    }
}

proof fn ramps_are_neutral(levels: nat, dark: bool)
    ensures
        is_neutral(ramps_text(levels, dark)),
{
    let heat = heat_colours(levels, dark);
    let count = color::allowed_levels(levels);
    let covered = coverage_colours(dark);
    assert forall|i: int| 0 <= i < count implies color::is_colour(#[trigger] heat[i]) by {
        color::every_step_is_a_colour(dark, color::position(i as nat, count));
    }
    assert forall|i: int| 0 <= i < color::COVERAGE_LEVELS implies color::is_colour(
        #[trigger] covered[i],
    ) by {
        color::coverage_steps_are_colours(i);
    }
    reveal_strlit("heat");
    reveal_strlit("cov");
    declarations_are_plain("heat"@, heat, count);
    declarations_are_plain("cov"@, covered, color::COVERAGE_LEVELS as nat);
    let ramps = ramps_text(levels, dark);
    assert(is_plain(ramps));
    assert(ramps[0] == ' ');
    occurrence::marks_need_both_characters(ramps, light_mark());
    occurrence::marks_need_both_characters(ramps, dark_mark());
    occurrence::marks_need_both_characters(ramps, parent_mark());
}

/// The light palette is told by its mark.
proof fn the_light_palette_is_marked(levels: nat)
    ensures
        occurrence::is_marked_once(light_text(levels), light_mark(), 15),
        occurrence::is_unmarked(light_text(levels), dark_mark()),
        occurrence::is_unmarked(light_text(levels), parent_mark()),
{
    reveal_strlit(
        "  color-scheme: light;\n  --surface: #fcfcfb;\n  --plane: #f9f9f7;\n  --ink: #0b0b0b;\n  --ink-secondary: #52514e;\n  --ink-muted: #898781;\n  --grid: #e1e0d9;\n  --axis: #c3c2b7;\n  --border: rgba(11, 11, 11, 0.10);\n",
    );
    let head = "  color-scheme: light;\n  --surface: #fcfcfb;\n  --plane: #f9f9f7;\n  --ink: #0b0b0b;\n  --ink-secondary: #52514e;\n  --ink-muted: #898781;\n  --grid: #e1e0d9;\n  --axis: #c3c2b7;\n  --border: rgba(11, 11, 11, 0.10);\n"@;
    let ramps = ramps_text(levels, false);
    ramps_are_neutral(levels, false);
    assert(occurrence::is_marked_once(head, light_mark(), 15));
    assert(occurrence::is_unmarked(head, dark_mark()));
    assert(occurrence::is_unmarked(head, parent_mark()));
    occurrence::what_follows_adds_no_mark(head, ramps, light_mark(), 15);
    occurrence::unmarked_pieces_add_up(head, ramps, dark_mark());
    occurrence::unmarked_pieces_add_up(head, ramps, parent_mark());
}

/// The dark palette is told by its mark.
proof fn the_dark_palette_is_marked(levels: nat)
    ensures
        occurrence::is_marked_once(dark_text(levels), dark_mark(), 19),
        occurrence::is_unmarked(dark_text(levels), light_mark()),
        occurrence::is_unmarked(dark_text(levels), parent_mark()),
{
    reveal_strlit(
        "  color-scheme: dark;\n  --surface: #1a1a19;\n  --plane: #0d0d0d;\n  --ink: #ffffff;\n  --ink-secondary: #c3c2b7;\n  --ink-muted: #898781;\n  --grid: #2c2c2a;\n  --axis: #383835;\n  --border: rgba(255, 255, 255, 0.10);\n",
    );
    let head = "  color-scheme: dark;\n  --surface: #1a1a19;\n  --plane: #0d0d0d;\n  --ink: #ffffff;\n  --ink-secondary: #c3c2b7;\n  --ink-muted: #898781;\n  --grid: #2c2c2a;\n  --axis: #383835;\n  --border: rgba(255, 255, 255, 0.10);\n"@;
    let ramps = ramps_text(levels, true);
    ramps_are_neutral(levels, true);
    assert(occurrence::is_marked_once(head, dark_mark(), 19));
    assert(occurrence::is_unmarked(head, light_mark()));
    assert(occurrence::is_unmarked(head, parent_mark()));
    occurrence::what_follows_adds_no_mark(head, ramps, dark_mark(), 19);
    occurrence::unmarked_pieces_add_up(head, ramps, light_mark());
    occurrence::unmarked_pieces_add_up(head, ramps, parent_mark());
}

/// Every piece around the palettes is neutral.
proof fn the_frame_is_neutral()
    ensures
        is_neutral(":root {\n"@),
        is_neutral("}\n@media (prefers-color-scheme: dark) {\n  #"@),
        is_neutral(THEME_AUTO_ID@),
        is_neutral(THEME_LIGHT_ID@),
        is_neutral(THEME_DARK_ID@),
        is_neutral(":checked ~ .page {\n"@),
        is_neutral("  }\n  :root {\n"@),
        is_neutral("  }\n}\n#"@),
        is_neutral("}\n#"@),
        is_neutral("}\n"@),
{
    reveal_strlit(":root {\n");
    reveal_strlit("}\n@media (prefers-color-scheme: dark) {\n  #");
    reveal_strlit("pv-theme-auto");
    reveal_strlit("pv-theme-light");
    reveal_strlit("pv-theme-dark");
    reveal_strlit(":checked ~ .page {\n");
    reveal_strlit("  }\n  :root {\n");
    reveal_strlit("  }\n}\n#");
    reveal_strlit("}\n#");
    reveal_strlit("}\n");
}

proof fn the_light_palette_stands_twice(levels: nat)
    ensures
        occurrence::occurrences(theme_text(levels), light_text(levels)) == 2,
{
    let (light, dark) = (light_text(levels), dark_text(levels));
    the_light_palette_is_marked(levels);
    the_dark_palette_is_marked(levels);
    the_frame_is_neutral();
    let text = Seq::<char>::empty();
    let places = Seq::<int>::empty();
    occurrence::other_pieces_add_no_place(text, light, light_mark(), 15, places, ":root {\n"@);
    let text = text + ":root {\n"@;
    occurrence::the_needle_adds_its_place(text, light, light_mark(), 15, places);
    let places = places.push(text.len() as int);
    let text = text + light;
    occurrence::other_pieces_add_no_place(text, light, light_mark(), 15, places, "}\n@media (prefers-color-scheme: dark) {\n  #"@);
    let text = text + "}\n@media (prefers-color-scheme: dark) {\n  #"@;
    occurrence::other_pieces_add_no_place(text, light, light_mark(), 15, places, THEME_AUTO_ID@);
    let text = text + THEME_AUTO_ID@;
    occurrence::other_pieces_add_no_place(text, light, light_mark(), 15, places, ":checked ~ .page {\n"@);
    let text = text + ":checked ~ .page {\n"@;
    occurrence::other_pieces_add_no_place(text, light, light_mark(), 15, places, dark);
    let text = text + dark;
    occurrence::other_pieces_add_no_place(text, light, light_mark(), 15, places, "  }\n  :root {\n"@);
    let text = text + "  }\n  :root {\n"@;
    occurrence::other_pieces_add_no_place(text, light, light_mark(), 15, places, dark);
    let text = text + dark;
    occurrence::other_pieces_add_no_place(text, light, light_mark(), 15, places, "  }\n}\n#"@);
    let text = text + "  }\n}\n#"@;
    occurrence::other_pieces_add_no_place(text, light, light_mark(), 15, places, THEME_LIGHT_ID@);
    let text = text + THEME_LIGHT_ID@;
    occurrence::other_pieces_add_no_place(text, light, light_mark(), 15, places, ":checked ~ .page {\n"@);
    let text = text + ":checked ~ .page {\n"@;
    occurrence::the_needle_adds_its_place(text, light, light_mark(), 15, places);
    let places = places.push(text.len() as int);
    let text = text + light;
    occurrence::other_pieces_add_no_place(text, light, light_mark(), 15, places, "}\n#"@);
    let text = text + "}\n#"@;
    occurrence::other_pieces_add_no_place(text, light, light_mark(), 15, places, THEME_DARK_ID@);
    let text = text + THEME_DARK_ID@;
    occurrence::other_pieces_add_no_place(text, light, light_mark(), 15, places, ":checked ~ .page {\n"@);
    let text = text + ":checked ~ .page {\n"@;
    occurrence::other_pieces_add_no_place(text, light, light_mark(), 15, places, dark);
    let text = text + dark;
    occurrence::other_pieces_add_no_place(text, light, light_mark(), 15, places, "}\n"@);
    let text = text + "}\n"@;
    assert(text =~= theme_text(levels));
    occurrence::there_is_a_place_for_every_occurrence(text, light, light_mark(), 15, places);
}

proof fn the_dark_palette_stands_three_times(levels: nat)
    ensures
        occurrence::occurrences(theme_text(levels), dark_text(levels)) == 3,
{
    let (light, dark) = (light_text(levels), dark_text(levels));
    the_light_palette_is_marked(levels);
    the_dark_palette_is_marked(levels);
    the_frame_is_neutral();
    let text = Seq::<char>::empty();
    let places = Seq::<int>::empty();
    occurrence::other_pieces_add_no_place(text, dark, dark_mark(), 19, places, ":root {\n"@);
    let text = text + ":root {\n"@;
    occurrence::other_pieces_add_no_place(text, dark, dark_mark(), 19, places, light);
    let text = text + light;
    occurrence::other_pieces_add_no_place(text, dark, dark_mark(), 19, places, "}\n@media (prefers-color-scheme: dark) {\n  #"@);
    let text = text + "}\n@media (prefers-color-scheme: dark) {\n  #"@;
    occurrence::other_pieces_add_no_place(text, dark, dark_mark(), 19, places, THEME_AUTO_ID@);
    let text = text + THEME_AUTO_ID@;
    occurrence::other_pieces_add_no_place(text, dark, dark_mark(), 19, places, ":checked ~ .page {\n"@);
    let text = text + ":checked ~ .page {\n"@;
    occurrence::the_needle_adds_its_place(text, dark, dark_mark(), 19, places);
    let places = places.push(text.len() as int);
    let text = text + dark;
    occurrence::other_pieces_add_no_place(text, dark, dark_mark(), 19, places, "  }\n  :root {\n"@);
    let text = text + "  }\n  :root {\n"@;
    occurrence::the_needle_adds_its_place(text, dark, dark_mark(), 19, places);
    let places = places.push(text.len() as int);
    let text = text + dark;
    occurrence::other_pieces_add_no_place(text, dark, dark_mark(), 19, places, "  }\n}\n#"@);
    let text = text + "  }\n}\n#"@;
    occurrence::other_pieces_add_no_place(text, dark, dark_mark(), 19, places, THEME_LIGHT_ID@);
    let text = text + THEME_LIGHT_ID@;
    occurrence::other_pieces_add_no_place(text, dark, dark_mark(), 19, places, ":checked ~ .page {\n"@);
    let text = text + ":checked ~ .page {\n"@;
    occurrence::other_pieces_add_no_place(text, dark, dark_mark(), 19, places, light);
    let text = text + light;
    occurrence::other_pieces_add_no_place(text, dark, dark_mark(), 19, places, "}\n#"@);
    let text = text + "}\n#"@;
    occurrence::other_pieces_add_no_place(text, dark, dark_mark(), 19, places, THEME_DARK_ID@);
    let text = text + THEME_DARK_ID@;
    occurrence::other_pieces_add_no_place(text, dark, dark_mark(), 19, places, ":checked ~ .page {\n"@);
    let text = text + ":checked ~ .page {\n"@;
    occurrence::the_needle_adds_its_place(text, dark, dark_mark(), 19, places);
    let places = places.push(text.len() as int);
    let text = text + dark;
    occurrence::other_pieces_add_no_place(text, dark, dark_mark(), 19, places, "}\n"@);
    let text = text + "}\n"@;
    assert(text =~= theme_text(levels));
    occurrence::there_is_a_place_for_every_occurrence(text, dark, dark_mark(), 19, places);
}

/// No rule of the stylesheet selects a parent, which older browsers could not.
proof fn the_stylesheet_selects_no_parent(levels: nat)
    ensures
        !text::contains_text(theme_text(levels), ":has("@),
{
    let (light, dark) = (light_text(levels), dark_text(levels));
    the_light_palette_is_marked(levels);
    the_dark_palette_is_marked(levels);
    the_frame_is_neutral();
    let text = ":root {\n"@;
    occurrence::unmarked_pieces_add_up(text, light, parent_mark());
    let text = text + light;
    occurrence::unmarked_pieces_add_up(text, "}\n@media (prefers-color-scheme: dark) {\n  #"@, parent_mark());
    let text = text + "}\n@media (prefers-color-scheme: dark) {\n  #"@;
    occurrence::unmarked_pieces_add_up(text, THEME_AUTO_ID@, parent_mark());
    let text = text + THEME_AUTO_ID@;
    occurrence::unmarked_pieces_add_up(text, ":checked ~ .page {\n"@, parent_mark());
    let text = text + ":checked ~ .page {\n"@;
    occurrence::unmarked_pieces_add_up(text, dark, parent_mark());
    let text = text + dark;
    occurrence::unmarked_pieces_add_up(text, "  }\n  :root {\n"@, parent_mark());
    let text = text + "  }\n  :root {\n"@;
    occurrence::unmarked_pieces_add_up(text, dark, parent_mark());
    let text = text + dark;
    occurrence::unmarked_pieces_add_up(text, "  }\n}\n#"@, parent_mark());
    let text = text + "  }\n}\n#"@;
    occurrence::unmarked_pieces_add_up(text, THEME_LIGHT_ID@, parent_mark());
    let text = text + THEME_LIGHT_ID@;
    occurrence::unmarked_pieces_add_up(text, ":checked ~ .page {\n"@, parent_mark());
    let text = text + ":checked ~ .page {\n"@;
    occurrence::unmarked_pieces_add_up(text, light, parent_mark());
    let text = text + light;
    occurrence::unmarked_pieces_add_up(text, "}\n#"@, parent_mark());
    let text = text + "}\n#"@;
    occurrence::unmarked_pieces_add_up(text, THEME_DARK_ID@, parent_mark());
    let text = text + THEME_DARK_ID@;
    occurrence::unmarked_pieces_add_up(text, ":checked ~ .page {\n"@, parent_mark());
    let text = text + ":checked ~ .page {\n"@;
    occurrence::unmarked_pieces_add_up(text, dark, parent_mark());
    let text = text + dark;
    occurrence::unmarked_pieces_add_up(text, "}\n"@, parent_mark());
    let text = text + "}\n"@;
    assert(text =~= theme_text(levels));
    reveal_strlit(":has(");
    occurrence::unmarked_texts_hold_no_marked_needle(text, ":has("@, parent_mark(), 3);
}

/// The rules that an explicit choice of theme switches on.
pub open spec fn choice_text(id: Seq<char>, palette: Seq<char>) -> Seq<char> {
    "#"@ + id + ":checked ~ .page {\n"@ + palette + "}\n"@
}

/// The rules that hold where the system prefers a dark theme: of the page while the choice
/// is left to the system, and of what lies around it.
pub open spec fn system_text(levels: nat) -> Seq<char> {
    "@media (prefers-color-scheme: dark) {\n  #"@ + THEME_AUTO_ID@ + ":checked ~ .page {\n"@
        + dark_text(levels) + "  }\n  :root {\n"@ + dark_text(levels) + "  }\n}\n"@
}

/// The stylesheet starts with the light palette, lets the system's preference swap it, and
/// lets an explicit choice override both in either direction. So it holds the light palette
/// twice and the dark one three times; and no rule needs a browser that can select a parent.
pub proof fn the_stylesheet_holds_each_palette(levels: nat)
    ensures
        theme_text(levels) == ":root {\n"@ + light_text(levels) + "}\n"@ + system_text(levels)
            + choice_text(THEME_LIGHT_ID@, light_text(levels)) + choice_text(
            THEME_DARK_ID@,
            dark_text(levels),
        ),
        occurrence::occurrences(theme_text(levels), light_text(levels)) == 2,
        occurrence::occurrences(theme_text(levels), dark_text(levels)) == 3,
        !text::contains_text(theme_text(levels), ":has("@),
{
    the_light_palette_stands_twice(levels);
    the_dark_palette_stands_three_times(levels);
    the_stylesheet_selects_no_parent(levels);
    reveal_strlit("#");
    reveal_strlit("@media (prefers-color-scheme: dark) {\n  #");
    reveal_strlit(":root {\n");
    reveal_strlit("}\n@media (prefers-color-scheme: dark) {\n  #");
    reveal_strlit("pv-theme-auto");
    reveal_strlit("pv-theme-light");
    reveal_strlit("pv-theme-dark");
    reveal_strlit(":checked ~ .page {\n");
    reveal_strlit("  }\n  :root {\n");
    reveal_strlit("  }\n}\n#");
    reveal_strlit("}\n#");
    reveal_strlit("}\n");
    assert("}\n@media (prefers-color-scheme: dark) {\n  #"@ =~= "}\n"@
        + "@media (prefers-color-scheme: dark) {\n  #"@);
    assert("  }\n}\n#"@ =~= "  }\n}\n"@ + "#"@) by {
        reveal_strlit("  }\n}\n");
    }
    assert("}\n#"@ =~= "}\n"@ + "#"@);
    assert(theme_text(levels) =~= ":root {\n"@ + light_text(levels) + "}\n"@ + system_text(levels)
        + choice_text(THEME_LIGHT_ID@, light_text(levels)) + choice_text(
        THEME_DARK_ID@,
        dark_text(levels),
    ));
}

/// The page chrome every report wears: the body, the header, the theme switch, the
/// metadata card and the History block.
pub const CHROME_CSS: &'static str = "
* { box-sizing: border-box; }
body {
  margin: 0;
  background: var(--plane);
  color: var(--ink);
  font-family: system-ui, -apple-system, 'Segoe UI', sans-serif;
  font-size: 15px;
  line-height: 1.5;
}
.page {
  min-height: 100vh;
  padding: 2rem clamp(1rem, 4vw, 3rem) 3rem;
  background: var(--plane);
  color: var(--ink);
}
.theme-input {
  position: absolute;
  width: 1px;
  height: 1px;
  opacity: 0;
}
svg.defs { position: absolute; }
h1 { font-size: 1.35rem; font-weight: 650; margin: 0 0 0.35rem; }
.heading {
  display: flex;
  flex-wrap: wrap;
  align-items: baseline;
  justify-content: space-between;
  gap: 0.5rem 1.5rem;
}
.visually-hidden {
  position: absolute;
  width: 1px;
  height: 1px;
  overflow: hidden;
  clip-path: inset(50%);
  white-space: nowrap;
}
.theme-switch {
  display: flex;
  margin: 0;
  padding: 2px;
  border: 1px solid var(--border);
  border-radius: 999px;
  background: var(--surface);
}
.theme-switch label {
  padding: 0.15rem 0.6rem;
  border-radius: 999px;
  font-size: 0.75rem;
  color: var(--ink-muted);
  cursor: pointer;
  user-select: none;
}
.theme-switch label:hover { color: var(--ink); }
#pv-theme-auto:checked ~ .page label[for='pv-theme-auto'],
#pv-theme-light:checked ~ .page label[for='pv-theme-light'],
#pv-theme-dark:checked ~ .page label[for='pv-theme-dark'] {
  background: var(--surface);
  color: var(--ink);
  box-shadow: inset 0 0 0 1px var(--border);
}
#pv-theme-auto:focus-visible ~ .page label[for='pv-theme-auto'],
#pv-theme-light:focus-visible ~ .page label[for='pv-theme-light'],
#pv-theme-dark:focus-visible ~ .page label[for='pv-theme-dark'] {
  outline: 2px solid var(--ink-secondary);
  outline-offset: 1px;
}
h2 { font-size: 0.85rem; font-weight: 600; margin: 0 0 0.6rem; color: var(--ink-secondary); }
.lede { margin: 0; max-width: 68ch; color: var(--ink-secondary); }
.meta dl {
  display: flex;
  flex-wrap: wrap;
  gap: 0.35rem 2rem;
  margin: 1.25rem 0 0;
  padding: 0.85rem 1rem;
  background: var(--surface);
  border: 1px solid var(--border);
  border-radius: 10px;
}
.meta dt { font-size: 0.7rem; text-transform: uppercase; letter-spacing: 0.04em; color: var(--ink-muted); margin: 0; }
.meta dd { margin: 0; font-variant-numeric: tabular-nums; }
.note { margin: 0.6rem 0 0; font-size: 0.78rem; color: var(--ink-muted); max-width: 72ch; }
.coverage-summary {
  margin: 1.25rem 0 0;
  padding: 0.85rem 1rem;
  background: var(--surface);
  border: 1px solid var(--border);
  border-radius: 10px;
}
.coverage-summary p { margin: 0 0 0.35rem; color: var(--ink-secondary); max-width: 78ch; }
.coverage-summary p:last-child { margin-bottom: 0; }
.coverage-summary .caution { color: var(--ink); }
.empty { margin-top: 1.25rem; color: var(--ink-secondary); }
.page-footer { margin-top: 2rem; font-size: 0.75rem; color: var(--ink-muted); }
";

/// Every entry of a definition list is shown, its key and its value escaped.
pub proof fn every_entry_is_shown(entries: Seq<(String, String)>, count: nat, i: int)
    requires
        0 <= i < count <= entries.len(),
    ensures
        text::contains_text(
            entries_text(entries, count),
            "<dt>"@ + render::escaped(entries[i].0@) + "</dt><dd>"@ + render::escaped(
                entries[i].1@,
            ) + "</dd>"@,
        ),
    decreases count,
{
    reveal_strlit("<div><dt>");
    reveal_strlit("<dt>");
    reveal_strlit("</dd></div>");
    reveal_strlit("</dd>");
    let last = count - 1;
    let empty = Seq::<char>::empty();
    let before = entries_text(entries, last as nat);
    let more = entry_text(entries[last].0@, entries[last].1@);
    let shown = "<dt>"@ + render::escaped(entries[i].0@) + "</dt><dd>"@ + render::escaped(
        entries[i].1@,
    ) + "</dd>"@;
    if i < last {
        every_entry_is_shown(entries, last as nat, i);
        assert(empty + before + more =~= before + more);
        text::more_text_takes_nothing_away(empty, before, more, shown);
    } else {
        let at = (before.len() + 5) as int;
        assert((before + more).subrange(at, at + shown.len()) =~= shown);
        assert(text::matches_at(before + more, shown, at));
    }
}

/// A history is cautioned about exactly when there is a reason: something that is missing
/// altogether, less than a year, or large parts that were never recorded.
pub proof fn cautions_have_a_reason(
    coverage: Coverage,
    grouping: Grouping,
    min_days: Option<u32>,
)
    ensures
        cautions_text(coverage, grouping, min_days) == Seq::<char>::empty() <==> (
        coverage.missing_facets@.len() == 0 && coverage.span_days >= 365 && !coverage.sparse()),
        coverage.missing_facets@.len() > 0 ==> text::contains_text(
            cautions_text(coverage, grouping, min_days),
            render::escaped(text::joined(coverage.missing_facets@, ", "@)),
        ),
{
    reveal_strlit("<p>No data at all for ");
    reveal_strlit("<p class=\"caution\">Less than a year of history: each ");
    reveal_strlit(
        "<p class=\"caution\">Large parts of the span were never recorded, so treat the percentages as indicative.</p>",
    );
    let said = cautions_text(coverage, grouping, min_days);
    if coverage.missing_facets@.len() > 0 || coverage.span_days < 365 || coverage.sparse() {
        assert(said[0] == '<');
    } else {
        assert(said =~= Seq::<char>::empty());
    }
    if coverage.missing_facets@.len() > 0 {
        let open = "<p>No data at all for "@;
        let list = render::escaped(text::joined(coverage.missing_facets@, ", "@));
        let at = open.len() as int;
        assert(said.subrange(at, at + list.len()) =~= list);
        assert(text::matches_at(said, list, at));
    }
}

/// Outages are told by their number and by the longest of them; where there are none, that is
/// what is said.
pub proof fn outages_are_counted(coverage: Coverage, figures: CoverageFigures, zone: Seq<char>)
    requires
        coverage.gaps@.len() > 0,
    ensures
        ({
            let said = outages_text(coverage, figures, zone);
            let longest = coverage.gaps@[coverage::longest_at(coverage.gaps@)];
            &&& text::matches_at(said, text::decimal(coverage.gaps@.len()), 3)
            &&& text::contains_text(
                said,
                render::escaped(gap_text(longest, figures.longest@, zone)),
            )
            &&& text::contains_text(said, render::escaped(figures.missing@))
        }),
{
    reveal_strlit("<p>");
    let said = outages_text(coverage, figures, zone);
    let count = text::decimal(coverage.gaps@.len());
    let longest = render::escaped(
        gap_text(
            coverage.gaps@[coverage::longest_at(coverage.gaps@)],
            figures.longest@,
            zone,
        ),
    );
    let plural = if coverage.gaps@.len() == 1 {
        " outage"@
    } else {
        " outages"@
    };
    let front = "<p>"@ + count + plural + " longer than "@ + render::escaped(figures.threshold@)
        + " ("@;
    let missing = render::escaped(figures.missing@);
    let middle = " missing in total). The longest ran "@;
    assert(said.subrange(3, 3 + count.len() as int) =~= count);
    text::parts_are_contained(front, missing, middle + longest + ".</p>"@);
    assert(said =~= front + missing + (middle + longest + ".</p>"@));
    text::parts_are_contained(front + missing + middle, longest, ".</p>"@);
    assert(said =~= (front + missing + middle) + longest + ".</p>"@);
}

/// Every colour of a ramp is declared under its own number.
pub proof fn every_colour_is_declared(
    name: Seq<char>,
    colours: Seq<Seq<char>>,
    count: nat,
    i: int,
)
    requires
        0 <= i < count <= colours.len(),
    ensures
        text::contains_text(
            declarations(name, colours, count),
            "--"@ + name + "-"@ + text::decimal(i as nat) + ": "@ + colours[i] + ";"@,
        ),
    decreases count,
{
    reveal_strlit("  --");
    reveal_strlit("--");
    reveal_strlit(";\n");
    reveal_strlit(";");
    let last = count - 1;
    let empty = Seq::<char>::empty();
    let before = declarations(name, colours, last as nat);
    let more = declaration_text(name, last as nat, colours[last]);
    let shown = "--"@ + name + "-"@ + text::decimal(i as nat) + ": "@ + colours[i] + ";"@;
    if i < last {
        every_colour_is_declared(name, colours, last as nat, i);
        assert(empty + before + more =~= before + more);
        text::more_text_takes_nothing_away(empty, before, more, shown);
    } else {
        let at = (before.len() + 2) as int;
        assert((before + more).subrange(at, at + shown.len()) =~= shown);
        assert(text::matches_at(before + more, shown, at));
    }
}

/// The heat ramp of a palette has as many colours as there are levels, and each ramp the
/// colours of its own surface.
pub proof fn palettes_have_their_own_colours(levels: nat, dark: bool, i: int)
    requires
        3 <= levels <= 16,
    ensures
        heat_colours(levels, dark).len() == levels,
        heat_colours(levels, dark)[0] == color::reference(dark, 0),
        heat_colours(levels, dark)[levels - 1] == color::reference(dark, 9),
        0 <= i < levels ==> color::is_colour(heat_colours(levels, dark)[i]),
        coverage_colours(dark).len() == 5,
{
    color::levels_keep_to_what_is_allowed(levels);
    color::resampling_keeps_the_endpoints(dark, levels);
    if 0 <= i < levels {
        color::every_step_is_a_colour(dark, color::position(i as nat, levels));
    }
}

/// A span of dates is told by its first and its last date, where both are known.
pub proof fn spans_are_told_by_their_ends(
    first: Option<CalendarDate>,
    last: Option<CalendarDate>,
    unknown: Seq<char>,
)
    ensures
        first is None || last is None ==> dates_text(first, last, unknown) == unknown,
        first is Some && last is Some ==> ({
            let said = dates_text(first, last, unknown);
            &&& said.take(first->0.iso_text().len() as int) == first->0.iso_text()
            &&& text::has_suffix(said, last->0.iso_text())
        }),
{
    if first is Some && last is Some {
        let said = dates_text(first, last, unknown);
        assert(said.take(first->0.iso_text().len() as int) =~= first->0.iso_text());
        assert(said.skip(said.len() - last->0.iso_text().len()) =~= last->0.iso_text());
    }
}

} // verus!
