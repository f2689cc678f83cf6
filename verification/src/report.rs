//! What the two tools print, and the facts they record in the header of a report.
//!
//! Durations, energies and amounts of money come in as formatted numbers.

use vstd::prelude::*;

use crate::coverage;
use crate::coverage::{Coverage, Gap};
use crate::model::{Grouping, Metric};
use crate::render;
use crate::render::layout;
use crate::render::payback;
use crate::source::schema::ValueColumn;
use crate::source::SourceKind;
use crate::storage::pair::Paired;
use crate::text;
use crate::timeutil;
use crate::timeutil::Zone;

verus! {

/// What to say when a listing is empty.
pub open spec fn nothing_listed_text(database: Seq<char>, filter: Seq<char>) -> Seq<char> {
    "No statistics in "@ + database + (if text::trimmed(filter).len() == 0 {
        Seq::empty()
    } else {
        " matching "@ + text::quoted(filter)
    }) + "."@
}

/// What to say when a listing is empty.
pub fn nothing_listed(database: &str, filter: &str) -> (out: String)
    ensures
        out@ == nothing_listed_text(database@, filter@),
{
    let matching: String = if text::trim(filter).as_str().is_empty() {
        String::new()
    } else {
        let mut part: String = String::from_str(" matching ");
        part.append(text::quote(filter).as_str());
        part
    };
    let mut out: String = String::from_str("No statistics in ");
    out.append(database);
    out.append(matching.as_str());
    out.append(".");
    out
}

// ---------------------------------------------------------------------------------------
// The heatmap report
// ---------------------------------------------------------------------------------------

/// The last instant whose day belongs to a history that ends at `last`.
pub fn last_instant(first: i64, last: i64) -> (instant: i64)
    ensures
        instant == if last - 1 > first {
            last - 1
        } else {
            first as int
        },
{
    if last > first {
        last - 1
    } else {
        first
    }
}

/// How many outages there are and how long the longest lasted.
pub open spec fn outages_text(
    coverage: Coverage,
    threshold: Seq<char>,
    longest: Seq<char>,
) -> Seq<char> {
    if coverage.gaps@.len() > 0 {
        text::decimal(coverage.gaps@.len())
        + " outages over "@
        + threshold
        + " (longest "@
        + longest
        + ")"@
    } else {
        "no outage over "@ + threshold
    }
}

fn describe_outages(coverage: &Coverage, threshold: &str, longest: &str) -> (out: String)
    ensures
        out@ == outages_text(*coverage, threshold@, longest@),
{
    if coverage.gaps.len() > 0 {
        let mut out: String = String::new();
        text::push_number(&mut out, coverage.gaps.len() as u64);
        assert(out@ =~= text::decimal(coverage.gaps@.len()));
        out.append(" outages over ");
        out.append(threshold);
        out.append(" (longest ");
        out.append(longest);
        out.append(")");
        out
    } else {
        let mut out: String = String::from_str("no outage over ");
        out.append(threshold);
        out
    }
}

/// One line saying what the recorder really covered.
pub open spec fn coverage_line_text(coverage: Coverage, zone: Seq<char>, threshold: Seq<char>, longest: Seq<char>) -> Seq<char> {
    "covers "@
        + layout::dates_text(layout::first_date(coverage, zone), layout::last_date(coverage, zone), "unknown span"@)
        + " ("@
        + text::decimal(coverage.span_days as nat)
        + " days): "@
        + text::decimal(coverage.observed_days as nat)
        + " days observed ("@
        + text::decimal(coverage.full_days as nat)
        + " of them full days), "@
        + outages_text(coverage, threshold, longest)
}

/// One line saying what the recorder really covered.
pub fn coverage_line(coverage: &Coverage, tz: &Zone, threshold: &str, longest: &str) -> (out: String)
    ensures
        out@ == coverage_line_text(*coverage, tz@, threshold@, longest@),
{
    let (first, last) = coverage.local_dates(tz);
    let span: String = layout::describe_dates(first, last, "unknown span");
    let mut out: String = String::from_str("covers ");
    out.append(span.as_str());
    out.append(" (");
    text::push_number(&mut out, coverage.span_days as u64);
    out.append(" days): ");
    text::push_number(&mut out, coverage.observed_days as u64);
    out.append(" days observed (");
    text::push_number(&mut out, coverage.full_days as u64);
    out.append(" of them full days), ");
    out.append(describe_outages(coverage, threshold, longest).as_str());
    out
}

/// One outage to the minute, as it is listed.
pub open spec fn outage_line_text(gap: Gap, duration: Seq<char>, zone: Seq<char>) -> Seq<char> {
    "  outage: "@
        + duration
        + " from "@
        + timeutil::instant_text(zone, gap.start_ts as int)
        + " to "@
        + timeutil::instant_text(zone, gap.end_ts as int)
}

/// One outage to the minute, as it is listed.
pub fn outage_line(gap: &Gap, duration: &str, tz: &Zone) -> (out: String)
    ensures
        out@ == outage_line_text(*gap, duration@, tz@),
{
    let mut out: String = String::from_str("  outage: ");
    out.append(duration);
    out.append(" from ");
    out.append(timeutil::format_instant(gap.start_ts, tz).as_str());
    out.append(" to ");
    out.append(timeutil::format_instant(gap.end_ts, tz).as_str());
    out
}

/// What a thin history means for the percentages.
pub open spec fn caution_text(coverage: Coverage, min_days: nat) -> Seq<char> {
    "note: "@
        + (if coverage.span_days >= 365 { "large parts of the span were never recorded"@ } else { "less than a year of history"@ })
        + " - percentages are conditional on the days actually recorded, and hours backed by fewer than "@
        + text::decimal(min_days)
        + " days are hatched."@
}

/// What a thin history means for the percentages.
pub fn caution_note(coverage: &Coverage, min_days: u32) -> (out: String)
    ensures
        out@ == caution_text(*coverage, min_days as nat),
{
    let mut out: String = String::from_str("note: ");
    out.append(if coverage.covers_full_year() { "large parts of the span were never recorded" } else { "less than a year of history" });
    out.append(" - percentages are conditional on the days actually recorded, and hours backed by fewer than ");
    text::push_number(&mut out, min_days as u64);
    out.append(" days are hatched.");
    out
}

/// What was read and how, for the header of the report.
#[derive(Debug)]
pub struct RunFacts {
    pub source: SourceKind,
    pub grouping: Grouping,
    pub metric: Metric,
    pub stat: ValueColumn,
    pub first_ts: Option<i64>,
    pub last_ts: Option<i64>,
    pub unit: Option<String>,
    /// The factor readings were multiplied by, where it is not one.
    pub scale: Option<String>,
    pub max_gap: i64,
    /// The top of the axis, where it was fixed.
    pub axis: Option<String>,
}

/// The dates of a run.
pub open spec fn range_text(first: i64, last: i64, zone: Seq<char>) -> Seq<char> {
    timeutil::date_text(zone, first as int) + " to "@ + timeutil::date_text(zone, last as int)
}

fn describe_range(first: i64, last: i64, tz: &Zone) -> (out: String)
    ensures
        out@ == range_text(first, last, tz@),
{
    let mut out: String = timeutil::format_day(first, tz);
    out.append(" to ");
    out.append(timeutil::format_day(last, tz).as_str());
    out
}

/// A unit with the factor it was multiplied by.
pub open spec fn unit_text(unit: Seq<char>, scale: Option<String>) -> Seq<char> {
    match scale {
        Some(scale) => unit + " x"@ + scale@,
        None => unit,
    }
}

fn describe_unit(unit: &str, scale: &Option<String>) -> (out: String)
    ensures
        out@ == unit_text(unit@, *scale),
{
    let mut out: String = String::from_str(unit);
    if let Some(scale) = scale {
        out.append(" x");
        out.append(scale.as_str());
    }
    out
}

/// Add an entry to a list.
fn push_entry(entries: &mut Vec<(String, String)>, key: &str, value: String)
    ensures
        payback::pair_texts(final(entries)@) == payback::pair_texts(old(entries)@).push(
            (key@, value@),
        ),
{
    let ghost before = entries@;
    entries.push((String::from_str(key), value));
    assert(payback::pair_texts(entries@) =~= payback::pair_texts(before).push(
        (key@, value@),
    ));
}

/// Entries with one more, where there is one.
pub open spec fn with_entry(
    entries: Seq<(Seq<char>, Seq<char>)>,
    key: Seq<char>,
    value: Option<Seq<char>>,
) -> Seq<(Seq<char>, Seq<char>)> {
    match value {
        Some(value) => entries.push((key, value)),
        None => entries,
    }
}

/// How long a reading stays valid, in words.
pub open spec fn gap_entry(max_gap: int) -> Seq<char> {
    text::signed_decimal(max_gap) + " s"@
}

fn describe_max_gap(max_gap: i64) -> (out: String)
    ensures
        out@ == gap_entry(max_gap as int),
{
    let mut out: String = String::new();
    text::push_signed(&mut out, max_gap);
    assert(out@ =~= text::signed_decimal(max_gap as int));
    out.append(" s");
    out
}

/// The entries of the heatmap report's header.
pub open spec fn header_texts(facts: RunFacts, zone: Seq<char>) -> Seq<(Seq<char>, Seq<char>)> {
    let named = Seq::<(Seq<char>, Seq<char>)>::empty().push(
        ("Source"@, facts.source.word()),
    ).push(("Grouping"@, facts.grouping.word())).push(
        ("Metric"@, facts.metric.word()),
    ).push(("Timezone"@, zone));
    let statistic = with_entry(
        named,
        "Statistic"@,
        if facts.source is Statistics || facts.source is ShortTerm {
            Some(facts.stat.column())
        } else {
            None
        },
    );
    let ranged = with_entry(
        statistic,
        "Range"@,
        match (facts.first_ts, facts.last_ts) {
            (Some(first), Some(last)) => Some(range_text(first, last, zone)),
            _ => None,
        },
    );
    let measured = match facts.unit {
        Some(unit) => ranged.push(("Unit"@, unit_text(unit@, facts.scale))),
        None => match facts.scale {
            Some(scale) => ranged.push(("Scale"@, "x"@ + scale@)),
            None => ranged,
        },
    };
    let gapped = with_entry(
        measured,
        "Max gap"@,
        if facts.source is States {
            Some(gap_entry(facts.max_gap as int))
        } else {
            None
        },
    );
    with_entry(
        gapped,
        "Axis"@,
        match facts.axis {
            Some(axis) => Some("fixed to "@ + axis@),
            None => None,
        },
    )
}

/// The facts worth recording in the header of the heatmap report.
pub fn metadata(facts: &RunFacts, tz: &Zone) -> (entries: Vec<(String, String)>)
    ensures
        payback::pair_texts(entries@) == header_texts(*facts, tz@),
{
    let mut entries: Vec<(String, String)> = Vec::new();
    assert(payback::pair_texts(entries@) =~= Seq::<(Seq<char>, Seq<char>)>::empty());
    push_entry(&mut entries, "Source", facts.source.to_string());
    push_entry(&mut entries, "Grouping", facts.grouping.to_string());
    push_entry(&mut entries, "Metric", facts.metric.to_string());
    push_entry(&mut entries, "Timezone", String::from_str(tz.name()));
    if facts.source.statistics_table().is_some() {
        push_entry(&mut entries, "Statistic", String::from_str(facts.stat.column_name()));
    }
    if let (Some(first), Some(last)) = (facts.first_ts, facts.last_ts) {
        push_entry(&mut entries, "Range", describe_range(first, last, tz));
    }
    match &facts.unit {
        Some(unit) => push_entry(
            &mut entries,
            "Unit",
            describe_unit(unit.as_str(), &facts.scale),
        ),
        None => {
            if let Some(scale) = &facts.scale {
                let mut factor: String = String::from_str("x");
                factor.append(scale.as_str());
                push_entry(&mut entries, "Scale", factor);
            }
        },
    }
    if facts.source == SourceKind::States {
        push_entry(&mut entries, "Max gap", describe_max_gap(facts.max_gap));
    }
    if let Some(axis) = &facts.axis {
        let mut fixed: String = String::from_str("fixed to ");
        fixed.append(axis.as_str());
        push_entry(&mut entries, "Axis", fixed);
    }
    entries
}

// ---------------------------------------------------------------------------------------
// The payback report
// ---------------------------------------------------------------------------------------

/// One line saying what the recorder really covered with both sensors.
pub open spec fn paired_coverage_text(coverage: Coverage, zone: Seq<char>) -> Seq<char> {
    "covers "@
        + layout::dates_text(layout::first_date(coverage, zone), layout::last_date(coverage, zone), "unknown span"@)
        + " ("@
        + text::decimal(coverage.span_days as nat)
        + " days): "@
        + text::decimal(coverage.observed_days as nat)
        + " days paired ("@
        + text::decimal(coverage.full_days as nat)
        + " of them full days), "@
        + text::decimal(coverage.gaps@.len())
        + " outages over "@
        + text::signed_decimal(timeutil::whole_units(coverage.gap_threshold_seconds as int, 3_600))
        + " h"@
}

/// One line saying what the recorder really covered with both sensors.
pub fn paired_coverage_line(coverage: &Coverage, tz: &Zone) -> (out: String)
    ensures
        out@ == paired_coverage_text(*coverage, tz@),
{
    let (first, last) = coverage.local_dates(tz);
    let span: String = layout::describe_dates(first, last, "unknown span");
    let mut out: String = String::from_str("covers ");
    out.append(span.as_str());
    out.append(" (");
    text::push_number(&mut out, coverage.span_days as u64);
    out.append(" days): ");
    text::push_number(&mut out, coverage.observed_days as u64);
    out.append(" days paired (");
    text::push_number(&mut out, coverage.full_days as u64);
    out.append(" of them full days), ");
    text::push_number(&mut out, coverage.gaps.len() as u64);
    out.append(" outages over ");
    text::push_signed(&mut out, timeutil::in_units(coverage.gap_threshold_seconds, 3_600));
    out.append(" h");
    out
}

/// Why there is nothing to simulate.
pub open spec fn nothing_paired_text(paired: Paired, import: Seq<char>, export: Seq<char>) -> Seq<char> {
    "`"@
        + import
        + "` and `"@
        + export
        + "` never covered the same "@
        + text::signed_decimal(timeutil::whole_units(paired.slot_seconds as int, 60))
        + " minute slot, so there is nothing to simulate. "@
        + text::decimal((paired.dropped_partial + paired.dropped_unpaired) as nat)
        + " slots were dropped: "@
        + text::decimal(paired.dropped_unpaired as nat)
        + " with only one sensor recording, "@
        + text::decimal(paired.dropped_partial as nat)
        + " covered too thinly. Try a wider --from/--to, --slot-minutes 60, or a lower --min-slot-coverage."@
}

/// Why there is nothing to simulate.
pub fn nothing_paired(paired: &Paired, import: &str, export: &str) -> (out: String)
    requires
        paired.dropped_partial + paired.dropped_unpaired <= usize::MAX,
    ensures
        out@ == nothing_paired_text(*paired, import@, export@),
{
    let mut out: String = String::from_str("`");
    out.append(import);
    out.append("` and `");
    out.append(export);
    out.append("` never covered the same ");
    text::push_signed(&mut out, timeutil::in_units(paired.slot_seconds, 60));
    out.append(" minute slot, so there is nothing to simulate. ");
    text::push_number(&mut out, paired.dropped() as u64);
    out.append(" slots were dropped: ");
    text::push_number(&mut out, paired.dropped_unpaired as u64);
    out.append(" with only one sensor recording, ");
    text::push_number(&mut out, paired.dropped_partial as u64);
    out.append(" covered too thinly. Try a wider --from/--to, --slot-minutes 60, or a lower --min-slot-coverage.");
    out
}

/// What was read and how, for the header of the payback report.
#[derive(Debug)]
pub struct PaybackFacts {
    pub source: SourceKind,
    /// Which table was asked for.
    pub requested: SourceKind,
    pub slot_seconds: i64,
    /// The span of each sensor's readings.
    pub import_span: (Option<i64>, Option<i64>),
    pub export_span: (Option<i64>, Option<i64>),
    pub unit: Option<String>,
    /// The factor readings were multiplied by, where it is not one.
    pub scale: Option<String>,
    /// Share of the capacity that is cycled over, and the round trip efficiency.
    pub usable: String,
    pub round_trip: String,
    /// Power limits in kilowatts, where there are any.
    pub max_charge: Option<String>,
    pub max_discharge: Option<String>,
    pub max_gap: i64,
}

/// The earlier of two instants, where there are any.
pub open spec fn earliest(a: Option<i64>, b: Option<i64>) -> Option<i64> {
    match (a, b) {
        (Some(a), Some(b)) => if a <= b {
            Some(a)
        } else {
            Some(b)
        },
        (Some(a), None) => Some(a),
        (None, b) => b,
    }
}

/// The later of two instants, where there are any.
pub open spec fn latest(a: Option<i64>, b: Option<i64>) -> Option<i64> {
    match (a, b) {
        (Some(a), Some(b)) => if a >= b {
            Some(a)
        } else {
            Some(b)
        },
        (Some(a), None) => Some(a),
        (None, b) => b,
    }
}

fn earliest_of(a: Option<i64>, b: Option<i64>) -> (ts: Option<i64>)
    ensures
        ts == earliest(a, b),
{
    match (a, b) {
        (Some(a), Some(b)) => if a <= b {
            Some(a)
        } else {
            Some(b)
        },
        (Some(a), None) => Some(a),
        (None, b) => b,
    }
}

fn latest_of(a: Option<i64>, b: Option<i64>) -> (ts: Option<i64>)
    ensures
        ts == latest(a, b),
{
    match (a, b) {
        (Some(a), Some(b)) => if a >= b {
            Some(a)
        } else {
            Some(b)
        },
        (Some(a), None) => Some(a),
        (None, b) => b,
    }
}

/// A power limit in words.
pub open spec fn limit_text(limit: Option<String>) -> Seq<char> {
    match limit {
        Some(kilowatts) => kilowatts@ + " kW"@,
        None => "unlimited"@,
    }
}

/// A power limit in words.
pub fn power_limit(limit: &Option<String>) -> (out: String)
    ensures
        out@ == limit_text(*limit),
{
    match limit {
        Some(kilowatts) => {
            let mut out: String = String::from_str(kilowatts.as_str());
            out.append(" kW");
            out
        },
        None => String::from_str("unlimited"),
    }
}

/// The battery that was simulated, in words.
pub open spec fn battery_text(figures: PaybackFacts) -> Seq<char> {
    figures.usable@
        + "% usable, "@
        + figures.round_trip@
        + "% round trip"@
        + (if figures.max_charge is Some || figures.max_discharge is Some { ", "@
        + limit_text(figures.max_charge)
        + " charge, "@
        + limit_text(figures.max_discharge)
        + " discharge"@ } else { Seq::empty() })
}

/// The battery that was simulated, in words.
fn describe_battery(figures: &PaybackFacts) -> (out: String)
    ensures
        out@ == battery_text(*figures),
{
    let part_1: String = if figures.max_charge.is_some() || figures.max_discharge.is_some() {
        let mut part: String = String::from_str(", ");
        part.append(power_limit(&figures.max_charge).as_str());
        part.append(" charge, ");
        part.append(power_limit(&figures.max_discharge).as_str());
        part.append(" discharge");
        part
    } else {
        String::new()
    };
    let mut out: String = String::from_str(figures.usable.as_str());
    out.append("% usable, ");
    out.append(figures.round_trip.as_str());
    out.append("% round trip");
    out.append(part_1.as_str());
    out
}

/// The length of a slot in words.
pub open spec fn slot_text(slot_seconds: int) -> Seq<char> {
    text::signed_decimal(timeutil::whole_units(slot_seconds, 60)) + " minutes"@
}

fn describe_slot(slot_seconds: i64) -> (out: String)
    ensures
        out@ == slot_text(slot_seconds as int),
{
    let mut out: String = String::new();
    text::push_signed(&mut out, timeutil::in_units(slot_seconds, 60));
    assert(out@ =~= text::signed_decimal(timeutil::whole_units(slot_seconds as int, 60)));
    out.append(" minutes");
    out
}

/// The entries of the payback report's header.
pub open spec fn payback_header_texts(facts: PaybackFacts, zone: Seq<char>) -> Seq<
    (Seq<char>, Seq<char>),
> {
    let named = Seq::<(Seq<char>, Seq<char>)>::empty().push(
        ("Source"@, facts.source.word()),
    ).push(("Timezone"@, zone)).push(
        ("Slot"@, slot_text(facts.slot_seconds as int)),
    );
    let ranged = with_entry(
        named,
        "Range"@,
        match (
            earliest(facts.import_span.0, facts.export_span.0),
            latest(facts.import_span.1, facts.export_span.1),
        ) {
            (Some(first), Some(last)) => Some(range_text(first, last, zone)),
            _ => None,
        },
    );
    let measured = with_entry(
        ranged,
        "Unit"@,
        match facts.unit {
            Some(unit) => Some(unit_text(unit@, facts.scale)),
            None => None,
        },
    ).push(("Battery"@, battery_text(facts)));
    with_entry(
        measured,
        "Max gap"@,
        if facts.requested is States {
            Some(gap_entry(facts.max_gap as int))
        } else {
            None
        },
    )
}

/// The facts worth recording in the header of the payback report.
pub fn payback_metadata(facts: &PaybackFacts, tz: &Zone) -> (entries: Vec<(String, String)>)
    ensures
        payback::pair_texts(entries@) == payback_header_texts(*facts, tz@),
{
    let mut entries: Vec<(String, String)> = Vec::new();
    assert(payback::pair_texts(entries@) =~= Seq::<(Seq<char>, Seq<char>)>::empty());
    push_entry(&mut entries, "Source", facts.source.to_string());
    push_entry(&mut entries, "Timezone", String::from_str(tz.name()));
    push_entry(&mut entries, "Slot", describe_slot(facts.slot_seconds));
    let first: Option<i64> = earliest_of(facts.import_span.0, facts.export_span.0);
    let last: Option<i64> = latest_of(facts.import_span.1, facts.export_span.1);
    if let (Some(first), Some(last)) = (first, last) {
        push_entry(&mut entries, "Range", describe_range(first, last, tz));
    }
    if let Some(unit) = &facts.unit {
        push_entry(&mut entries, "Unit", describe_unit(unit.as_str(), &facts.scale));
    }
    push_entry(&mut entries, "Battery", describe_battery(facts));
    if facts.requested == SourceKind::States {
        push_entry(&mut entries, "Max gap", describe_max_gap(facts.max_gap));
    }
    entries
}

/// What the fastest payback comes to, and what it could cost to reach the target.
#[derive(Debug)]
pub struct BestFigures {
    pub capacity: String,
    pub investment: String,
    pub savings: String,
    pub payback: String,
    /// What it may cost to be square within the target.
    pub allowed: String,
    /// What it was quoted at.
    pub quoted: String,
    /// How much less it would have to cost.
    pub discount: String,
    /// Whether the quote already reaches the target.
    pub met: bool,
    /// What a kilowatt hour of capacity may cost, where the base cost leaves anything.
    pub per_kwh: Option<String>,
    pub base_cost: String,
}

/// What a run found.
#[derive(Debug)]
pub struct FoundFigures {
    /// Where the report was written, how large it is and how long the run took.
    pub out: String,
    pub kilobytes: String,
    pub elapsed: String,
    pub sizes: usize,
    pub slots: usize,
    pub slot_seconds: i64,
    pub import: String,
    pub export: String,
    pub best: Option<BestFigures>,
    /// The payback period aimed for.
    pub target: String,
    /// The smallest and the largest size tried.
    pub smallest: String,
    pub largest: String,
    /// The factor that stretches the history to a year, where it is shorter than one.
    pub annualisation: Option<String>,
}

/// What a kilowatt hour of capacity may cost.
pub open spec fn per_kwh_text(figures: BestFigures) -> Seq<char> {
    match figures.per_kwh {
        Some(per_kwh) => ", or "@ + per_kwh@ + " per kWh on top of the "@ + figures.base_cost@
            + " base cost"@,
        None => ", which the "@ + figures.base_cost@ + " base cost alone already exceeds"@,
    }
}

fn describe_per_kwh(figures: &BestFigures) -> (out: String)
    ensures
        out@ == per_kwh_text(*figures),
{
    match &figures.per_kwh {
        Some(per_kwh) => {
            let mut out: String = String::from_str(", or ");
            out.append(per_kwh.as_str());
            out.append(" per kWh on top of the ");
            out.append(figures.base_cost.as_str());
            out.append(" base cost");
            out
        },
        None => {
            let mut out: String = String::from_str(", which the ");
            out.append(figures.base_cost.as_str());
            out.append(" base cost alone already exceeds");
            out
        },
    }
}

/// What the fastest payback comes to, and what it could cost.
pub open spec fn best_text(figures: BestFigures, target: Seq<char>) -> Seq<char> {
    "best payback: "@
        + figures.capacity@
        + " kWh for "@
        + figures.investment@
        + " saves "@
        + figures.savings@
        + " a year - paid off in "@
        + figures.payback@
        + "\nfor "@
        + target
        + (if figures.met { ": already there - it could cost up to "@
        + figures.allowed@ } else { ": it would have to cost "@
        + figures.allowed@
        + " instead of "@
        + figures.quoted@
        + " ("@
        + figures.discount@
        + " less)"@ })
        + per_kwh_text(figures)
}

/// What the fastest payback comes to, and what it could cost.
fn describe_best(figures: &BestFigures, target: &str) -> (out: String)
    ensures
        out@ == best_text(*figures, target@),
{
    let part_1: String = if figures.met {
        let mut part: String = String::from_str(": already there - it could cost up to ");
        part.append(figures.allowed.as_str());
        part
    } else {
        let mut part: String = String::from_str(": it would have to cost ");
        part.append(figures.allowed.as_str());
        part.append(" instead of ");
        part.append(figures.quoted.as_str());
        part.append(" (");
        part.append(figures.discount.as_str());
        part.append(" less)");
        part
    };
    let mut out: String = String::from_str("best payback: ");
    out.append(figures.capacity.as_str());
    out.append(" kWh for ");
    out.append(figures.investment.as_str());
    out.append(" saves ");
    out.append(figures.savings.as_str());
    out.append(" a year - paid off in ");
    out.append(figures.payback.as_str());
    out.append("\nfor ");
    out.append(target);
    out.append(part_1.as_str());
    out.append(describe_per_kwh(figures).as_str());
    out
}

/// What the run found out about payback.
pub open spec fn verdict_text(found: FoundFigures) -> Seq<char> {
    match found.best {
        Some(best) => best_text(best, found.target@),
        None => "best payback: none - no battery between "@ + found.smallest@ + " and "@
            + found.largest@ + " kWh pays for itself here, so no price would reach "@
            + found.target@,
    }
}

fn verdict(found: &FoundFigures) -> (out: String)
    ensures
        out@ == verdict_text(*found),
{
    match &found.best {
        Some(best) => describe_best(best, found.target.as_str()),
        None => {
            let mut out: String = String::from_str("best payback: none - no battery between ");
            out.append(found.smallest.as_str());
            out.append(" and ");
            out.append(found.largest.as_str());
            out.append(" kWh pays for itself here, so no price would reach ");
            out.append(found.target.as_str());
            out
        },
    }
}

/// That annual figures are stretched, where they are.
pub open spec fn stretch_text(factor: Option<String>) -> Seq<char> {
    match factor {
        Some(factor) => "\nnote: the history is shorter than a year, so annual figures are the observed period multiplied by "@
            + factor@,
        None => Seq::empty(),
    }
}

fn describe_stretch(factor: &Option<String>) -> (out: String)
    ensures
        out@ == stretch_text(*factor),
{
    match factor {
        Some(factor) => {
            let mut out: String = String::from_str(
                "\nnote: the history is shorter than a year, so annual figures are the observed period multiplied by ",
            );
            out.append(factor.as_str());
            out
        },
        None => String::new(),
    }
}

/// What the run found, in the order it matters.
pub open spec fn report_text(found: FoundFigures) -> Seq<char> {
    "wrote "@
        + found.out@
        + ": "@
        + text::decimal(found.sizes as nat)
        + " sizes over "@
        + text::decimal(found.slots as nat)
        + " slots of "@
        + text::signed_decimal(timeutil::whole_units(found.slot_seconds as int, 60))
        + " minutes, "@
        + found.kilobytes@
        + " kB, "@
        + found.elapsed@
        + "\nmeasured "@
        + found.import@
        + " imported and "@
        + found.export@
        + " exported\n"@
        + verdict_text(found)
        + stretch_text(found.annualisation)
}

/// What the run found, in the order it matters.
pub fn report(found: &FoundFigures) -> (out: String)
    ensures
        out@ == report_text(*found),
{
    let mut out: String = String::from_str("wrote ");
    out.append(found.out.as_str());
    out.append(": ");
    text::push_number(&mut out, found.sizes as u64);
    out.append(" sizes over ");
    text::push_number(&mut out, found.slots as u64);
    out.append(" slots of ");
    text::push_signed(&mut out, timeutil::in_units(found.slot_seconds, 60));
    out.append(" minutes, ");
    out.append(found.kilobytes.as_str());
    out.append(" kB, ");
    out.append(found.elapsed.as_str());
    out.append("\nmeasured ");
    out.append(found.import.as_str());
    out.append(" imported and ");
    out.append(found.export.as_str());
    out.append(" exported\n");
    out.append(verdict(found).as_str());
    out.append(describe_stretch(&found.annualisation).as_str());
    out
}

// ---------------------------------------------------------------------------------------
// What a report says
// ---------------------------------------------------------------------------------------

/// Of two instants the earlier is no later than either, the later no earlier, and each is one
/// of the two; an instant that is missing gives way to the other.
pub proof fn spans_hold_both_instants(a: Option<i64>, b: Option<i64>)
    ensures
        earliest(a, b) is None <==> a is None && b is None,
        latest(a, b) is None <==> a is None && b is None,
        a is Some ==> earliest(a, b)->0 <= a->0 <= latest(a, b)->0,
        b is Some ==> earliest(a, b)->0 <= b->0 <= latest(a, b)->0,
        earliest(a, b) == a || earliest(a, b) == b,
        latest(a, b) == a || latest(a, b) == b,
        earliest(a, b) == earliest(b, a),
        latest(a, b) == latest(b, a),
{
}

/// Whether an entry is listed in a header.
pub open spec fn lists_entry(
    entries: Seq<(Seq<char>, Seq<char>)>,
    key: Seq<char>,
    value: Seq<char>,
) -> bool {
    exists|i: int| 0 <= i < entries.len() && #[trigger] entries[i] == (key, value)
}

/// An entry that is listed stays listed, and a value that is given is listed under its key.
pub proof fn entries_stay_listed(
    entries: Seq<(Seq<char>, Seq<char>)>,
    key: Seq<char>,
    value: Option<Seq<char>>,
    other: Seq<char>,
    content: Seq<char>,
)
    ensures
        lists_entry(entries, other, content) ==> lists_entry(
            with_entry(entries, key, value),
            other,
            content,
        ),
        value matches Some(given) ==> lists_entry(with_entry(entries, key, value), key, given),
        value is None ==> with_entry(entries, key, value) == entries,
{
    let more = with_entry(entries, key, value);
    if lists_entry(entries, other, content) {
        let i = choose|i: int|
            0 <= i < entries.len() && #[trigger] entries[i] == (other, content);
        assert(more[i] == (other, content));
    }
    if value is Some {
        assert(more[entries.len() as int] == (key, value->0));
    }
}

/// The header of the heatmap report has an entry for everything it should: always where the
/// readings come from, how they are grouped and measured and in which zone; and the rest where
/// there is something to say.
pub proof fn headers_say_how_it_was_read(facts: RunFacts, zone: Seq<char>)
    ensures
        ({
            let header = header_texts(facts, zone);
            let count = 4 + crate::source::one_if(
                facts.source is Statistics || facts.source is ShortTerm,
            ) + crate::source::one_if(facts.first_ts is Some && facts.last_ts is Some) + crate::source::one_if(
                facts.unit is Some || facts.scale is Some,
            ) + crate::source::one_if(facts.source is States) + crate::source::one_if(facts.axis is Some);
            &&& header.len() == count
            &&& header[0] == ("Source"@, facts.source.word())
            &&& header[1] == ("Grouping"@, facts.grouping.word())
            &&& header[2] == ("Metric"@, facts.metric.word())
            &&& header[3] == ("Timezone"@, zone)
            &&& facts.source is Statistics || facts.source is ShortTerm ==> header[4] == (
                "Statistic"@,
                facts.stat.column(),
            )
            &&& facts.axis matches Some(axis) ==> header.last() == ("Axis"@, "fixed to "@ + axis@)
            &&& facts.axis is None && facts.source is States ==> header.last() == (
                "Max gap"@,
                gap_entry(facts.max_gap as int),
            )
        }),
{
}

/// The header of the payback report names the slot, the battery and the span of both sensors.
pub proof fn payback_headers_say_how_it_was_read(facts: PaybackFacts, zone: Seq<char>)
    ensures
        ({
            let header = payback_header_texts(facts, zone);
            let ranged = (facts.import_span.0 is Some || facts.export_span.0 is Some) && (
            facts.import_span.1 is Some || facts.export_span.1 is Some);
            &&& header.len() == 4 + crate::source::one_if(ranged) + crate::source::one_if(facts.unit is Some)
                + crate::source::one_if(facts.requested is States)
            &&& header[0] == ("Source"@, facts.source.word())
            &&& header[1] == ("Timezone"@, zone)
            &&& header[2] == ("Slot"@, slot_text(facts.slot_seconds as int))
            &&& lists_entry(header, "Battery"@, battery_text(facts))
            &&& facts.requested is States ==> header.last() == (
                "Max gap"@,
                gap_entry(facts.max_gap as int),
            )
        }),
{
    let header = payback_header_texts(facts, zone);
    let at = header.len() - 1 - crate::source::one_if(facts.requested is States);
    assert(header[at] == ("Battery"@, battery_text(facts)));
}

/// A slot of whole minutes is told in minutes.
pub proof fn slots_are_told_in_minutes(minutes: int)
    requires
        minutes >= 0,
    ensures
        slot_text(60 * minutes) == text::decimal(minutes as nat) + " minutes"@,
{
    timeutil::whole_units_leave_less_than_one(60 * minutes, 60);
}

/// A limit is told in kilowatts, and a battery without limits says nothing of them.
pub proof fn batteries_are_told_by_their_limits(figures: PaybackFacts)
    ensures
        figures.max_charge is None && figures.max_discharge is None ==> battery_text(figures)
            == figures.usable@ + "% usable, "@ + figures.round_trip@ + "% round trip"@,
        figures.max_charge matches Some(limit) ==> text::contains_text(
            battery_text(figures),
            limit@ + " kW charge, "@,
        ),
        figures.max_discharge matches Some(limit) ==> text::has_suffix(
            battery_text(figures),
            limit@ + " kW discharge"@,
        ),
{
    reveal_strlit(" kW");
    reveal_strlit(" charge, ");
    reveal_strlit(" kW charge, ");
    reveal_strlit(" discharge");
    reveal_strlit(" kW discharge");
    assert(" kW"@ + " charge, "@ =~= " kW charge, "@);
    assert(" kW"@ + " discharge"@ =~= " kW discharge"@);
    let words = battery_text(figures);
    let plain = figures.usable@ + "% usable, "@ + figures.round_trip@ + "% round trip"@;
    if figures.max_charge is None && figures.max_discharge is None {
        assert(words =~= plain);
    }
    if let Some(limit) = figures.max_charge {
        let back = limit_text(figures.max_discharge) + " discharge"@;
        let middle = limit@ + " kW charge, "@;
        text::parts_are_contained(plain + ", "@, middle, back);
        assert(words =~= (plain + ", "@) + middle + back);
    }
    if let Some(limit) = figures.max_discharge {
        let back = limit@ + " kW discharge"@;
        assert(words.skip(words.len() - back.len()) =~= back);
    }
}

/// Slots that could not be paired are counted by their reasons.
pub proof fn unpaired_slots_are_counted(paired: Paired, import: Seq<char>, export: Seq<char>)
    ensures
        text::contains_text(
            nothing_paired_text(paired, import, export),
            text::decimal((paired.dropped_partial + paired.dropped_unpaired) as nat)
                + " slots were dropped: "@ + text::decimal(paired.dropped_unpaired as nat)
                + " with only one sensor recording, "@ + text::decimal(
                paired.dropped_partial as nat,
            ) + " covered too thinly."@,
        ),
{
    reveal_strlit(" covered too thinly.");
    reveal_strlit(
        " covered too thinly. Try a wider --from/--to, --slot-minutes 60, or a lower --min-slot-coverage.",
    );
    let said = nothing_paired_text(paired, import, export);
    let front = "`"@ + import + "` and `"@ + export + "` never covered the same "@
        + text::signed_decimal(timeutil::whole_units(paired.slot_seconds as int, 60))
        + " minute slot, so there is nothing to simulate. "@;
    let needle = text::decimal((paired.dropped_partial + paired.dropped_unpaired) as nat)
        + " slots were dropped: "@ + text::decimal(paired.dropped_unpaired as nat)
        + " with only one sensor recording, "@ + text::decimal(paired.dropped_partial as nat)
        + " covered too thinly."@;
    let at = front.len() as int;
    assert(said.subrange(at, at + needle.len()) =~= needle);
    assert(text::matches_at(said, needle, at));
}

/// The coverage line says how many days were spanned, observed and full.
pub proof fn coverage_lines_say_how_many_days(
    coverage: Coverage,
    zone: Seq<char>,
    threshold: Seq<char>,
    longest: Seq<char>,
)
    ensures
        text::contains_text(
            coverage_line_text(coverage, zone, threshold, longest),
            text::decimal(coverage.span_days as nat) + " days): "@ + text::decimal(
                coverage.observed_days as nat,
            ) + " days observed ("@ + text::decimal(coverage.full_days as nat)
                + " of them full days)"@,
        ),
        coverage.gaps@.len() > 0 ==> text::contains_text(
            coverage_line_text(coverage, zone, threshold, longest),
            text::decimal(coverage.gaps@.len()) + " outages over "@ + threshold,
        ),
        coverage.gaps@.len() == 0 ==> text::has_suffix(
            coverage_line_text(coverage, zone, threshold, longest),
            "no outage over "@ + threshold,
        ),
{
    reveal_strlit(" of them full days)");
    reveal_strlit(" of them full days), ");
    let line = coverage_line_text(coverage, zone, threshold, longest);
    let front = "covers "@ + layout::dates_text(
        layout::first_date(coverage, zone),
        layout::last_date(coverage, zone),
        "unknown span"@,
    ) + " ("@;
    let days = text::decimal(coverage.span_days as nat) + " days): "@ + text::decimal(
        coverage.observed_days as nat,
    ) + " days observed ("@ + text::decimal(coverage.full_days as nat) + " of them full days)"@;
    let at = front.len() as int;
    assert(line.subrange(at, at + days.len()) =~= days);
    assert(text::matches_at(line, days, at));
    let there = at + days.len() + 2;
    let outages = outages_text(coverage, threshold, longest);
    assert(line.skip(there) =~= outages);
    if coverage.gaps@.len() > 0 {
        let count = text::decimal(coverage.gaps@.len()) + " outages over "@ + threshold;
        assert(line.subrange(there, there + count.len()) =~= count);
        assert(text::matches_at(line, count, there));
    }
}

/// A thin history is cautioned about by what makes it thin: its length, or else its holes.
pub proof fn notes_say_what_is_thin(coverage: Coverage, min_days: nat)
    ensures
        coverage.span_days < 365 ==> text::contains_text(
            caution_text(coverage, min_days),
            "less than a year of history"@,
        ),
        coverage.span_days >= 365 ==> text::contains_text(
            caution_text(coverage, min_days),
            "large parts of the span were never recorded"@,
        ),
        text::contains_text(
            caution_text(coverage, min_days),
            "fewer than "@ + text::decimal(min_days) + " days"@,
        ),
{
    reveal_strlit("fewer than ");
    reveal_strlit(" days");
    reveal_strlit(" days are hatched.");
    reveal_strlit(
        " - percentages are conditional on the days actually recorded, and hours backed by fewer than ",
    );
    let note = caution_text(coverage, min_days);
    let reason = if coverage.span_days >= 365 {
        "large parts of the span were never recorded"@
    } else {
        "less than a year of history"@
    };
    let middle =
        " - percentages are conditional on the days actually recorded, and hours backed by fewer than "@;
    let back = middle + text::decimal(min_days) + " days are hatched."@;
    text::parts_are_contained("note: "@, reason, back);
    assert(note =~= "note: "@ + reason + back);
    let needle = "fewer than "@ + text::decimal(min_days) + " days"@;
    let at = ("note: "@ + reason).len() + middle.len() - 11;
    assert(note.subrange(at, at + needle.len()) =~= needle);
    assert(text::matches_at(note, needle, at));
}

/// The report of a run says where it was written, how many sizes it tried, over how many slots
/// and of how many minutes, and ends with the verdict and what it rests on.
pub proof fn reports_say_what_was_run(found: FoundFigures, minutes: int)
    requires
        minutes >= 0,
        found.slot_seconds == 60 * minutes,
    ensures
        text::contains_text(
            report_text(found),
            found.out@ + ": "@ + text::decimal(found.sizes as nat) + " sizes over "@
                + text::decimal(found.slots as nat) + " slots of "@ + text::decimal(minutes as nat)
                + " minutes, "@,
        ),
        text::has_suffix(report_text(found), verdict_text(found) + stretch_text(found.annualisation)),
        found.best is None ==> text::contains_text(
            verdict_text(found),
            found.smallest@ + " and "@ + found.largest@,
        ),
        found.best matches Some(best) ==> verdict_text(found) == best_text(best, found.target@),
{
    timeutil::whole_units_leave_less_than_one(60 * minutes, 60);
    let said = report_text(found);
    let needle = found.out@ + ": "@ + text::decimal(found.sizes as nat) + " sizes over "@
        + text::decimal(found.slots as nat) + " slots of "@ + text::decimal(minutes as nat)
        + " minutes, "@;
    let at = "wrote "@.len() as int;
    assert(said.subrange(at, at + needle.len()) =~= needle);
    assert(text::matches_at(said, needle, at));
    let end = verdict_text(found) + stretch_text(found.annualisation);
    assert(said.skip(said.len() - end.len()) =~= end);
    if found.best is None {
        let open = "best payback: none - no battery between "@;
        let range = found.smallest@ + " and "@ + found.largest@;
        let close = " kWh pays for itself here, so no price would reach "@ + found.target@;
        text::parts_are_contained(open, range, close);
        assert(verdict_text(found) =~= open + range + close);
    }
}

/// A battery that is already paid off in time is told what it could cost, and any other what
/// it would have to.
pub proof fn targets_are_told_by_what_is_allowed(figures: BestFigures, target: Seq<char>)
    ensures
        ({
            let said = best_text(figures, target);
            &&& figures.met ==> text::contains_text(
                said,
                target + ": already there - it could cost up to "@ + figures.allowed@,
            )
            &&& !figures.met ==> text::contains_text(
                said,
                target + ": it would have to cost "@ + figures.allowed@ + " instead of "@
                    + figures.quoted@,
            )
            &&& text::has_suffix(said, per_kwh_text(figures))
        }),
{
    let said = best_text(figures, target);
    let front = "best payback: "@ + figures.capacity@ + " kWh for "@ + figures.investment@
        + " saves "@ + figures.savings@ + " a year - paid off in "@ + figures.payback@
        + "\nfor "@;
    let last = per_kwh_text(figures);
    let at = front.len() as int;
    if figures.met {
        let needle = target + ": already there - it could cost up to "@ + figures.allowed@;
        assert(said.subrange(at, at + needle.len()) =~= needle);
        assert(text::matches_at(said, needle, at));
    } else {
        let needle = target + ": it would have to cost "@ + figures.allowed@ + " instead of "@
            + figures.quoted@;
        assert(said.subrange(at, at + needle.len()) =~= needle);
        assert(text::matches_at(said, needle, at));
    }
    assert(said.skip(said.len() - last.len()) =~= last);
}

} // verus!
