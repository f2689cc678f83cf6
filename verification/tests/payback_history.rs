use anyhow::{Context, Error, Result};
use pv_probability::model::Sample;
use pv_probability::order::arrange;
use pv_probability::render::payback::{
    page, trim_capacity, MeasuredFigures, NextFigures, PaybackOptions, PriceFigures, PriceRow,
    SizeFigures, SweepFigures,
};
use pv_probability::render::svg::Tick;
use pv_probability::render::{group_thousands, trim_zeros};
use pv_probability::source::catalog;
use pv_probability::source::catalog::{Candidate, RowSummary};
use pv_probability::source::schema::{
    anywhere, column_names, not_found_error, states_layout, statistic_query, statistics_layout,
    suggestion_patterns, suggestion_query, table_info_query, value_to_timestamp, StatesLayout,
    StatisticMeta, StatisticsTable, Stored, ValueColumn,
};
use pv_probability::source::states::{readings_from_rows, samples_within, states_query};
use pv_probability::source::statistics::{
    resolve_scale, row_count_query, rows_query, samples_from_rows, WattScale,
};
use pv_probability::source::testdb::{format_utc, ts, Flavour, Lcg, Outages};
use pv_probability::source::{
    explain_no_samples, find_candidate, nothing_to_read, resolve_auto, AutoFacts, AutoQuestion,
    AutoStep, LoadedSamples, SourceKind,
};
use pv_probability::storage::pair::{pair, Paired};
use pv_probability::storage::series::{accumulate, for_each_slot_slice, grid_for, SlotGrid};
use pv_probability::storage::sweep::{fastest_payback, next_after_best};
use pv_probability::timeutil::Zone;
use rusqlite::types::Value;
use rusqlite::Connection;

const HOUR: i64 = 3_600;
const IMPORT_ENTITY: &str = "sensor.grid_import_power";
const EXPORT_ENTITY: &str = "sensor.grid_export_power";

/// Format a probability for a label: `100%`, `62%`, `6.2%`, `0.45%`.
fn format_percent(probability: f64) -> String {
    if !probability.is_finite() {
        return "-".to_string();
    }
    let percent = probability * 100.0;
    if percent >= 10.0 || percent == 0.0 {
        format!("{percent:.0}%")
    } else if percent >= 1.0 {
        format!("{}%", trim_zeros(&format!("{percent:.1}")))
    } else {
        format!("{}%", trim_zeros(&format!("{percent:.2}")))
    }
}

/// Format an amount of energy for a label: `4.2 kWh`, `420 kWh`, `3.7 MWh`.
fn format_kwh(kwh: f64) -> String {
    if !kwh.is_finite() {
        return "-".to_string();
    }
    if kwh.abs() < 10.0 {
        return format!("{} kWh", trim_zeros(&format!("{kwh:.2}")));
    }
    if kwh.abs() < 1_000.0 {
        return format!("{} kWh", group_thousands(&format!("{kwh:.0}")));
    }
    format!("{} MWh", trim_zeros(&format!("{:.2}", kwh / 1_000.0)))
}

/// Format money for a label: `0.35 EUR`, `650 EUR`, `6,500 EUR`.
fn format_money(amount: f64, currency: &str) -> String {
    if !amount.is_finite() {
        return format!("- {currency}");
    }
    let number = if amount.abs() < 10.0 {
        trim_zeros(&format!("{amount:.2}"))
    } else {
        group_thousands(&format!("{amount:.0}"))
    };
    format!("{number} {currency}")
}

/// Format a payback period: `8.4 years`, or what it means when there is not one.
fn format_years(years: Option<f64>) -> String {
    match years {
        None => "never".to_string(),
        Some(years) if !years.is_finite() || years >= 100.0 => "over 100 years".to_string(),
        Some(years) if years < 1.0 => {
            format!("{} months", trim_zeros(&format!("{:.1}", years * 12.0)))
        }
        Some(years) => format!("{} years", trim_zeros(&format!("{years:.1}"))),
    }
}

/// "1.8 years" / "7 months" / "12 days", for a span of observation time.
fn format_span(seconds: f64) -> String {
    let days = seconds / 86_400.0;
    if days < 90.0 {
        return format!("{days:.0} days");
    }
    if days < 550.0 {
        return format!("{:.0} months", days / 30.44);
    }
    format!("{:.1} years", days / 365.2425)
}

/// Gridline positions for an axis running from 0 to `max`, on the familiar
/// 1 / 2 / 2.5 / 5 × 10^n sequence.
fn nice_ticks(max: f64, target: usize) -> Vec<f64> {
    if !max.is_finite() || max <= 0.0 || target == 0 {
        return vec![0.0];
    }
    let rough = max / target as f64;
    let magnitude = 10f64.powf(rough.log10().floor());
    let normalised = rough / magnitude;
    let step = if normalised <= 1.0 {
        1.0
    } else if normalised <= 2.0 {
        2.0
    } else if normalised <= 2.5 {
        2.5
    } else if normalised <= 5.0 {
        5.0
    } else {
        10.0
    } * magnitude;

    let mut ticks = Vec::new();
    let mut value = 0.0;
    while value <= max + step * 1e-9 {
        ticks.push(value);
        value += step;
    }
    ticks
}

/// Seconds in a mean Gregorian year, used to annualise a partial history.
const SECONDS_PER_YEAR: f64 = 365.2425 * 86_400.0;

/// Geometry of the chart, in user units.
const SAVINGS_TOP: f64 = 26.0;
const PAYBACK_TOP: f64 = 196.0;
const PANEL_HEIGHT: f64 = 130.0;

/// One slot both sensors covered, with the energy that crossed the meter in it.
#[derive(Debug, Clone, Copy)]
struct Step {
    seconds: f64,
    import_kwh: f64,
    export_kwh: f64,
}

/// The timeline the simulation runs on.
#[derive(Debug)]
struct Timeline {
    steps: Vec<Step>,
    observed_seconds: f64,
    import_kwh: f64,
    export_kwh: f64,
}

/// Energy per slot in kWh, integrated over the slices of each readable sample.
fn energies(samples: &[Sample<f64>], grid: SlotGrid) -> Vec<f64> {
    let mut kwh = vec![0.0; grid.len()];
    for sample in samples {
        if sample.watts.is_finite() {
            for slice in for_each_slot_slice(sample.start_ts, sample.end_ts, grid) {
                kwh[slice.index] += sample.watts * slice.seconds as f64 / 3_600_000.0;
            }
        }
    }
    kwh
}

/// Put the energies of both sensors onto the slots they were paired in.
fn timeline(paired: &Paired, import: &[f64], export: &[f64]) -> Timeline {
    let steps: Vec<Step> = paired
        .steps
        .iter()
        .map(|step| Step {
            seconds: step.seconds as f64,
            import_kwh: import[step.index],
            export_kwh: export[step.index],
        })
        .collect();
    Timeline {
        observed_seconds: paired.observed_seconds as f64,
        import_kwh: steps.iter().map(|step| step.import_kwh).sum(),
        export_kwh: steps.iter().map(|step| step.export_kwh).sum(),
        steps,
    }
}

/// The battery being tried out.
#[derive(Debug, Clone, Copy, PartialEq)]
struct BatterySpec {
    /// Nameplate capacity in kWh.
    capacity_kwh: f64,
    /// Share of the nameplate a battery is actually cycled over.
    usable_fraction: f64,
    /// Round trip efficiency, charged half on the way in and half on the way out.
    round_trip: f64,
    /// Charge and discharge power ceilings, `None` for unlimited.
    max_charge_kw: Option<f64>,
    max_discharge_kw: Option<f64>,
}

impl BatterySpec {
    /// The energy actually available to cycle, in kWh.
    fn usable_kwh(&self) -> f64 {
        (self.capacity_kwh * self.usable_fraction).max(0.0)
    }

    /// One-way efficiency, so that `charge * discharge == round_trip`.
    fn one_way(&self) -> f64 {
        self.round_trip.clamp(0.0, 1.0).sqrt()
    }
}

/// What the battery did over the whole history.
#[derive(Debug, Clone, Copy, PartialEq)]
struct Simulation {
    /// Energy delivered to the house that would otherwise have been bought.
    avoided_import_kwh: f64,
    /// Surplus taken from the export instead of being given away.
    lost_export_kwh: f64,
    /// Full equivalent cycles of the usable capacity.
    full_cycles: f64,
}

impl Simulation {
    /// The import it avoided, less the export it swallowed if that export was paid for.
    fn savings(&self, price_per_kwh: f64, feed_in_price: f64) -> f64 {
        self.avoided_import_kwh * price_per_kwh - self.lost_export_kwh * feed_in_price
    }
}

/// Run one battery over the paired steps.
///
/// Each step serves the import first and charges from the surplus afterwards: a battery
/// filled yesterday covers this morning, and today's sun refills it.
fn simulate(steps: &[Step], spec: &BatterySpec) -> Simulation {
    let usable = spec.usable_kwh();
    let eta = spec.one_way();
    let mut soc = 0.0f64;
    let mut result =
        Simulation { avoided_import_kwh: 0.0, lost_export_kwh: 0.0, full_cycles: 0.0 };
    if usable <= 0.0 || eta <= 0.0 {
        return result;
    }
    for step in steps {
        let hours = step.seconds / 3_600.0;

        // Discharge into whatever was being bought this step.
        let ceiling = spec.max_discharge_kw.map_or(f64::INFINITY, |kw| (kw * hours).max(0.0));
        let deliver = step.import_kwh.min(soc * eta).min(ceiling).max(0.0);
        soc -= deliver / eta;
        result.avoided_import_kwh += deliver;

        // Then store what is left of the surplus.
        let ceiling = spec.max_charge_kw.map_or(f64::INFINITY, |kw| (kw * hours).max(0.0));
        let absorb = step.export_kwh.min((usable - soc) / eta).min(ceiling).max(0.0);
        soc += absorb * eta;
        result.lost_export_kwh += absorb;
    }
    result.full_cycles = result.avoided_import_kwh / usable;
    result
}

/// What energy and batteries cost.
#[derive(Debug, Clone, PartialEq)]
struct Economics {
    /// Price of a kilowatt hour taken from the grid.
    price_per_kwh: f64,
    /// What a kilowatt hour fed back is worth. Zero when the export is gifted.
    feed_in_price: f64,
    /// Installed battery cost per kilowatt hour of nameplate capacity.
    cost_per_kwh: f64,
    /// The part of the bill that does not scale with capacity: inverter, wiring, labour.
    base_cost: f64,
    currency: String,
}

impl Economics {
    /// What a battery of this size costs to put in.
    fn investment(&self, capacity_kwh: f64) -> f64 {
        self.base_cost + self.cost_per_kwh * capacity_kwh
    }
}

/// How long an investment takes to pay for itself, or `None` when it never does.
fn payback_years(investment: f64, annual_savings: f64) -> Option<f64> {
    if annual_savings > 0.0 && investment.is_finite() {
        Some(investment / annual_savings)
    } else {
        None
    }
}

/// One battery size, simulated and priced.
#[derive(Debug, Clone)]
struct SizeResult {
    capacity_kwh: f64,
    simulation: Simulation,
    annual_savings: f64,
    investment: f64,
    payback_years: Option<f64>,
    /// Share of the imported energy this battery avoided buying, 0..=1.
    import_reduction: f64,
    cycles_per_year: f64,
    /// What the step up from the previous size, on its own, takes to pay for itself.
    marginal_payback_years: Option<f64>,
}

/// The whole sweep, with the arithmetic that turned an observed period into a year.
#[derive(Debug)]
struct Sweep {
    results: Vec<SizeResult>,
    /// Multiplier taking the observed period up to a full year.
    annualisation: f64,
    /// Position of the fastest payback, if anything pays back at all.
    best: Option<usize>,
    economics: Economics,
}

/// The sizes to try, from a range.
fn size_range(min: f64, max: f64, step: f64) -> Vec<f64> {
    if !(min.is_finite() && max.is_finite() && step.is_finite()) || step <= 0.0 || max < min {
        return Vec::new();
    }
    let count = ((max - min) / step).floor() as usize;
    // Multiplying rather than accumulating keeps 0.1 steps from drifting.
    (0..=count).map(|index| min + step * index as f64).filter(|size| *size > 0.0).collect()
}

/// The rank of a number that is not negative: such numbers order as their bits do.
fn rank(number: f64) -> i64 {
    number.max(0.0).to_bits() as i64
}

/// Simulate one size and price it.
fn try_size(
    timeline: &Timeline,
    capacity_kwh: f64,
    template: &BatterySpec,
    economics: &Economics,
    annualisation: f64,
) -> SizeResult {
    let simulation = simulate(&timeline.steps, &BatterySpec { capacity_kwh, ..*template });
    let annual_savings =
        simulation.savings(economics.price_per_kwh, economics.feed_in_price) * annualisation;
    let investment = economics.investment(capacity_kwh);
    SizeResult {
        capacity_kwh,
        annual_savings,
        investment,
        payback_years: payback_years(investment, annual_savings),
        import_reduction: if timeline.import_kwh > 0.0 {
            simulation.avoided_import_kwh / timeline.import_kwh
        } else {
            0.0
        },
        cycles_per_year: simulation.full_cycles * annualisation,
        marginal_payback_years: None,
        simulation,
    }
}

/// Simulate every size and price the results.
fn sweep(
    timeline: &Timeline,
    sizes: &[f64],
    template: &BatterySpec,
    economics: &Economics,
) -> Sweep {
    let annualisation = if timeline.observed_seconds > 0.0 {
        SECONDS_PER_YEAR / timeline.observed_seconds
    } else {
        0.0
    };
    let ranks: Vec<i64> = sizes.iter().map(|size| rank(*size)).collect();
    let mut results: Vec<SizeResult> = arrange(&ranks)
        .iter()
        .map(|position| {
            try_size(timeline, sizes[*position], template, economics, annualisation)
        })
        .collect();

    // What each step up costs against what it alone adds; the first size is measured against
    // having no battery, which costs nothing.
    let (mut investment, mut savings) = (0.0, 0.0);
    for result in &mut results {
        result.marginal_payback_years =
            payback_years(result.investment - investment, result.annual_savings - savings);
        investment = result.investment;
        savings = result.annual_savings;
    }

    let paybacks: Vec<Option<i64>> =
        results.iter().map(|result| result.payback_years.map(rank)).collect();
    let best = fastest_payback(&paybacks);
    Sweep { results, annualisation, best, economics: economics.clone() }
}

/// A capacity as people write it.
fn capacity(kwh: f64) -> String {
    trim_capacity(&format!("{kwh:.2}"))
}

/// Gridlines for one panel, and the value its full height stands for.
fn panel_scale(max: f64) -> (Vec<f64>, f64) {
    let ticks = nice_ticks(max, 4);
    let span = ticks.last().copied().unwrap_or(0.0).max(max).max(f64::MIN_POSITIVE);
    (ticks, span)
}

/// Where the gridlines of a panel lie.
fn panel_ticks(top: f64, max: f64, label: impl Fn(f64) -> String) -> Vec<Tick> {
    let (ticks, span) = panel_scale(max);
    ticks
        .into_iter()
        .map(|tick| {
            let y = top + PANEL_HEIGHT - (tick / span) * PANEL_HEIGHT;
            Tick {
                y: format!("{y:.1}"),
                label_y: format!("{:.1}", y + 4.0),
                label: label(tick),
            }
        })
        .collect()
}

/// Top edge and height of a bar.
fn bar(top: f64, value: f64, span: f64) -> (String, String) {
    let height = (value / span * PANEL_HEIGHT).clamp(0.0, PANEL_HEIGHT);
    (format!("{:.1}", top + PANEL_HEIGHT - height), format!("{height:.1}"))
}

impl Sweep {
    /// The factor that stretches the history to a year, where it is shorter than one.
    fn stretch(&self) -> Option<String> {
        if self.annualisation > 1.01 {
            Some(format!("{:.2}", self.annualisation))
        } else {
            None
        }
    }

    /// Payback for one size at a different price and cost, without re-simulating: the energy
    /// flows do not depend on what anything costs.
    fn payback_at(&self, result: &SizeResult, price: f64, cost_factor: f64) -> Option<f64> {
        let savings = result.simulation.savings(price, self.economics.feed_in_price)
            * self.annualisation;
        payback_years(self.economics.investment(result.capacity_kwh) * cost_factor, savings)
    }

    fn money(&self, amount: f64) -> String {
        format_money(amount, &self.economics.currency)
    }

    fn size_figures(&self, result: &SizeResult, savings: f64, payback: f64) -> SizeFigures {
        SizeFigures {
            capacity: capacity(result.capacity_kwh),
            investment: self.money(result.investment),
            savings: self.money(result.annual_savings),
            avoided: format_kwh(result.simulation.avoided_import_kwh * self.annualisation),
            reduction: format_percent(result.import_reduction),
            cycles: format!("{:.0}", result.cycles_per_year),
            payback: format_years(result.payback_years),
            step_up: format_years(result.marginal_payback_years),
            savings_bar: bar(SAVINGS_TOP, result.annual_savings, savings),
            payback_bar: result.payback_years.map(|years| bar(PAYBACK_TOP, years, payback)),
        }
    }

    /// Everything about the sweep that a page shows; the prices and the quotes looked at lie
    /// `spread` either side of what they are.
    fn figures(&self, spread: f64) -> SweepFigures {
        let max_savings =
            self.results.iter().map(|result| result.annual_savings).fold(0.0f64, f64::max);
        let max_payback =
            self.results.iter().filter_map(|result| result.payback_years).fold(0.0f64, f64::max);
        let savings_span = panel_scale(max_savings).1;
        let payback_span = panel_scale(max_payback).1;
        let best = self.best.map(|best| &self.results[best]);
        let next = next_after_best(self.best, self.results.len()).map(|next| &self.results[next]);
        let price = self.economics.price_per_kwh;
        let factors = [1.0 - spread, 1.0, 1.0 + spread];
        SweepFigures {
            sizes: self
                .results
                .iter()
                .map(|result| self.size_figures(result, savings_span, payback_span))
                .collect(),
            best: self.best,
            next: best.zip(next).map(|(best, next)| NextFigures {
                capacity: capacity(next.capacity_kwh),
                savings: self.money(next.annual_savings - best.annual_savings),
                investment: self.money(next.investment - best.investment),
                payback: format_years(next.marginal_payback_years),
            }),
            savings_ticks: panel_ticks(SAVINGS_TOP, max_savings, |tick| self.money(tick)),
            payback_ticks: panel_ticks(PAYBACK_TOP, max_payback, |tick| format!("{tick:.0}")),
            quotes: best.map_or(Vec::new(), |best| {
                factors.iter().map(|factor| self.money(best.investment * factor)).collect()
            }),
            price_rows: best.map_or(Vec::new(), |best| {
                factors
                    .iter()
                    .map(|moved| PriceRow {
                        price: self.money(price * moved),
                        paybacks: factors
                            .iter()
                            .map(|factor| {
                                format_years(self.payback_at(best, price * moved, *factor))
                            })
                            .collect(),
                    })
                    .collect()
            }),
        }
    }

    /// The prices a page states.
    fn prices(&self) -> PriceFigures {
        let feed_in = self.economics.feed_in_price;
        PriceFigures {
            price: self.money(self.economics.price_per_kwh),
            feed_in: if feed_in > 0.0 { Some(self.money(feed_in)) } else { None },
            base_cost: self.money(self.economics.base_cost),
            cost_per_kwh: self.money(self.economics.cost_per_kwh),
        }
    }

    /// What the history came to.
    fn measured(&self, timeline: &Timeline) -> MeasuredFigures {
        MeasuredFigures {
            import: format_kwh(timeline.import_kwh),
            export: format_kwh(timeline.export_kwh),
            span: format_span(timeline.observed_seconds),
            annualisation: self.stretch(),
        }
    }
}

/// Everything the loader needs to know.
#[derive(Debug)]
struct LoadOptions<'a> {
    entity: &'a str,
    source: SourceKind,
    value: ValueColumn,
    from: Option<i64>,
    to: Option<i64>,
    max_gap: i64,
    scale: Option<f64>,
    clamp_negative: bool,
}

/// Samples and the factor that turned the recorded numbers into watts.
#[derive(Debug)]
struct Loaded {
    found: LoadedSamples<f64>,
    scale: f64,
}

/// Does a table (or view) exist?
fn table_exists(conn: &Connection, name: &str) -> Result<bool> {
    let count: i64 = conn
        .query_row(
            "SELECT COUNT(*) FROM sqlite_master WHERE type IN ('table', 'view') AND name = ?1",
            [name],
            |row| row.get(0),
        )
        .with_context(|| format!("failed to look up table {name}"))?;
    Ok(count > 0)
}

/// Column names of a table, lower-cased.
fn columns_of(conn: &Connection, table: &str) -> Result<Vec<String>> {
    let mut stmt = conn
        .prepare(&table_info_query(table))
        .with_context(|| format!("failed to inspect table {table}"))?;
    let names = stmt
        .query_map([], |row| row.get::<_, String>(1))?
        .collect::<rusqlite::Result<Vec<String>>>()?;
    Ok(column_names(&names))
}

/// What a database holds where a time is expected.
fn stored(value: &Value) -> Stored {
    match value {
        Value::Null => Stored::Null,
        Value::Integer(number) => Stored::Integer(*number),
        Value::Real(number) => {
            Stored::Real(if number.is_finite() { Some(number.floor() as i64) } else { None })
        }
        Value::Text(text) => Stored::Text(text.clone()),
        Value::Blob(_) => Stored::Blob,
    }
}

/// A stored reading, whatever type the column happens to hold; floating point.
fn value_to_f64(value: &Value) -> Option<f64> {
    match value {
        Value::Integer(number) => Some(*number as f64),
        Value::Real(number) => Some(*number),
        Value::Text(text) => text.trim().parse::<f64>().ok(),
        Value::Null | Value::Blob(_) => None,
    }
    .filter(|number| number.is_finite())
}

/// The unit scale and the negative-reading policy applied to a reading; floating point.
fn scale_watts(value: f64, scale: f64, clamp_negative: bool) -> f64 {
    let scaled = value * scale;
    if clamp_negative {
        scaled.max(0.0)
    } else {
        scaled
    }
}

/// The factor that turns recorded numbers into watts; floating point.
fn scale_factor(explicit: Option<f64>, unit: Option<&str>) -> f64 {
    match (resolve_scale(explicit.is_some(), unit), explicit) {
        (WattScale::Explicit, Some(factor)) => factor,
        (WattScale::Explicit, None) => 1.0,
        (WattScale::Thousandths(thousandths), _) => thousandths as f64 / 1_000.0,
    }
}

/// Resolve a `statistic_id` (e.g. `sensor.solar_power`) to its metadata row.
fn find_statistic(conn: &Connection, statistic_id: &str) -> Result<Option<StatisticMeta>> {
    if !table_exists(conn, "statistics_meta")? {
        return Err(Error::msg("this database has no `statistics_meta` table"));
    }
    let sql = statistic_query(&columns_of(conn, "statistics_meta")?);
    let mut stmt = conn.prepare(sql)?;
    let mut rows = stmt.query_map([statistic_id], read_meta)?;
    match rows.next() {
        Some(meta) => Ok(Some(meta?)),
        None => Ok(None),
    }
}

fn read_meta(row: &rusqlite::Row<'_>) -> rusqlite::Result<StatisticMeta> {
    Ok(StatisticMeta { metadata_id: row.get(0)?, statistic_id: row.get(1)?, unit: row.get(2)? })
}

/// Resolve an `entity_id` to the `states_meta` row id used by modern schemas.
fn find_state_metadata_id(conn: &Connection, entity_id: &str) -> Result<Option<i64>> {
    if !table_exists(conn, "states_meta")? {
        return Ok(None);
    }
    let mut stmt = conn.prepare("SELECT metadata_id FROM states_meta WHERE entity_id = ?1")?;
    let mut rows = stmt.query_map([entity_id], |row| row.get::<_, i64>(0))?;
    match rows.next() {
        Some(id) => Ok(Some(id?)),
        None => Ok(None),
    }
}

/// Ids similar to `needle`, to put in an error message when nothing matched.
fn suggest_ids(conn: &Connection, table: &str, column: &str, needle: &str) -> Vec<String> {
    let sql = suggestion_query(table, column);
    for pattern in suggestion_patterns(needle) {
        let Ok(mut stmt) = conn.prepare(&sql) else {
            return Vec::new();
        };
        let Ok(rows) = stmt.query_map([anywhere(&pattern)], |row| row.get::<_, String>(0)) else {
            return Vec::new();
        };
        let matches: Vec<String> = rows.flatten().collect();
        if !matches.is_empty() {
            return matches;
        }
    }
    Vec::new()
}

/// How many rows a statistic has in a table.
fn row_count(conn: &Connection, table: StatisticsTable, metadata_id: i64) -> Result<i64> {
    conn.query_row(&row_count_query(table), [metadata_id], |row| row.get(0))
        .with_context(|| format!("failed to count rows in {}", table.table_name()))
}

/// How raw states are stored here.
fn states_layout_of(conn: &Connection) -> Result<StatesLayout> {
    let exists = table_exists(conn, "states")?;
    let columns = columns_of(conn, "states")?;
    let meta_exists = table_exists(conn, "states_meta")?;
    states_layout(exists, &columns, meta_exists).map_err(|error| Error::msg(error.message()))
}

/// Whether raw states know an entity.
fn entity_exists(conn: &Connection, entity: &str) -> Result<bool> {
    match states_layout_of(conn) {
        Ok(StatesLayout::MetadataId { .. }) => Ok(find_state_metadata_id(conn, entity)?.is_some()),
        Ok(StatesLayout::InlineEntityId { .. }) => {
            let count: i64 = conn.query_row(
                "SELECT COUNT(*) FROM states WHERE entity_id = ?1",
                [entity],
                |row| row.get(0),
            )?;
            Ok(count > 0)
        }
        Err(_) => Ok(false),
    }
}

/// Find the table that holds the most history of an entity.
fn choose_source(conn: &Connection, entity: &str) -> Result<SourceKind> {
    let mut facts = AutoFacts::unknown();
    let mut metadata_id = 0;
    loop {
        let question = match resolve_auto(&facts) {
            AutoStep::Read(source) => return Ok(source),
            AutoStep::Nothing => return Err(Error::msg(nothing_to_read())),
            AutoStep::Ask(question) => question,
        };
        match question {
            AutoQuestion::HasStatisticsMeta => {
                facts.statistics_meta = Some(table_exists(conn, "statistics_meta")?);
            }
            AutoQuestion::IsStatistic => {
                let meta = find_statistic(conn, entity)?;
                facts.statistic = Some(meta.is_some());
                metadata_id = meta.map_or(0, |meta| meta.metadata_id);
            }
            AutoQuestion::HasLongTerm => {
                facts.long_term = Some(table_exists(conn, "statistics")?);
            }
            AutoQuestion::CountLongTerm => {
                let rows = row_count(conn, StatisticsTable::LongTerm, metadata_id)?;
                facts.long_term_rows = Some(rows);
            }
            AutoQuestion::HasShortTerm => {
                facts.short_term = Some(table_exists(conn, "statistics_short_term")?);
            }
            AutoQuestion::CountShortTerm => {
                let rows = row_count(conn, StatisticsTable::ShortTerm, metadata_id)?;
                facts.short_term_rows = Some(rows);
            }
            AutoQuestion::HasStates => {
                facts.states = Some(table_exists(conn, "states")?);
            }
            AutoQuestion::IsInStates => {
                facts.in_states = Some(entity_exists(conn, entity)?);
            }
        }
    }
}

/// Load samples from the table asked for, or from the one with the most history.
fn load(conn: &Connection, options: &LoadOptions<'_>) -> Result<Loaded> {
    let source = match options.source {
        SourceKind::Auto => choose_source(conn, options.entity)?,
        explicit => explicit,
    };
    match source.statistics_table() {
        Some(table) => load_statistics(conn, options, source, table),
        None => load_states(conn, options, source),
    }
}

/// Load statistics rows as time-weighted samples.
fn load_statistics(
    conn: &Connection,
    options: &LoadOptions<'_>,
    source: SourceKind,
    table: StatisticsTable,
) -> Result<Loaded> {
    let exists = table_exists(conn, table.table_name())?;
    let columns = columns_of(conn, table.table_name())?;
    let time = statistics_layout(exists, &columns, table, options.value)
        .map_err(|error| Error::msg(error.message()))?;
    let Some(meta) = find_statistic(conn, options.entity)? else {
        let similar = suggest_ids(conn, "statistics_meta", "statistic_id", options.entity);
        return Err(Error::msg(not_found_error("statistic", options.entity, &similar)));
    };

    let interval = table.interval_seconds();
    assert!(
        options.from.is_none_or(|from| from.checked_sub(interval).is_some()),
        "the window starts too early"
    );
    let (sql, params) =
        rows_query(time, table, options.value, meta.metadata_id, options.from, options.to);
    let scale = scale_factor(options.scale, meta.unit.as_deref());
    let mut stmt = conn.prepare(&sql)?;
    let rows = stmt
        .query_map(rusqlite::params_from_iter(params), |row| {
            let start = value_to_timestamp(&stored(&row.get::<_, Value>(0)?));
            let watts = value_to_f64(&row.get::<_, Value>(1)?)
                .map(|value| scale_watts(value, scale, options.clamp_negative));
            Ok((start, watts))
        })?
        .collect::<rusqlite::Result<Vec<(Option<i64>, Option<f64>)>>>()?;
    assert!(
        rows.iter().all(|row| row.0.is_none_or(|start| start.checked_add(interval).is_some())),
        "a row starts too late"
    );
    let samples = samples_from_rows(&rows, table, options.from, options.to);
    Ok(Loaded { found: LoadedSamples::describe(samples, source, meta.unit, rows.len()), scale })
}

/// Load raw states as time-weighted samples.
fn load_states(
    conn: &Connection,
    options: &LoadOptions<'_>,
    source: SourceKind,
) -> Result<Loaded> {
    let layout = states_layout_of(conn)?;
    let key = match layout {
        StatesLayout::MetadataId { .. } => match find_state_metadata_id(conn, options.entity)? {
            Some(metadata_id) => Value::Integer(metadata_id),
            None => {
                let similar = suggest_ids(conn, "states_meta", "entity_id", options.entity);
                return Err(Error::msg(not_found_error("entity", options.entity, &similar)));
            }
        },
        StatesLayout::InlineEntityId { .. } => Value::Text(options.entity.to_string()),
    };
    let scale = options.scale.unwrap_or(1.0);
    let mut stmt = conn.prepare(&states_query(layout))?;
    let rows = stmt
        .query_map([key], |row| {
            let ts = value_to_timestamp(&stored(&row.get::<_, Value>(0)?));
            let watts = value_to_f64(&row.get::<_, Value>(1)?)
                .map(|value| scale_watts(value, scale, options.clamp_negative));
            Ok((ts, watts))
        })?
        .collect::<rusqlite::Result<Vec<(Option<i64>, Option<f64>)>>>()?;
    let samples: Vec<Sample<f64>> =
        samples_within(&readings_from_rows(&rows), options.max_gap, options.from, options.to);
    Ok(Loaded { found: LoadedSamples::describe(samples, source, None, rows.len()), scale })
}

/// Every statistic in the database whose id contains `filter`, best candidates first.
fn list_statistics(conn: &Connection, filter: Option<&str>) -> Result<Vec<Candidate>> {
    if !table_exists(conn, "statistics_meta")? {
        return Ok(Vec::new());
    }
    let mut stmt =
        conn.prepare(catalog::statistics_query(&columns_of(conn, "statistics_meta")?))?;
    let metas =
        stmt.query_map([], read_meta)?.collect::<rusqlite::Result<Vec<StatisticMeta>>>()?;
    let metas = catalog::keep_matching(&metas, filter);
    let ids: Vec<i64> = metas.iter().map(|meta| meta.metadata_id).collect();
    let summaries = summarise(conn, &ids)?;
    Ok(catalog::list_statistics(&metas, &summaries))
}

/// One grouped pass over `statistics`.
fn summarise(conn: &Connection, ids: &[i64]) -> Result<Vec<(i64, RowSummary)>> {
    if ids.is_empty() || !table_exists(conn, "statistics")? {
        return Ok(Vec::new());
    }
    let mut stmt = conn.prepare(&catalog::row_summary(&columns_of(conn, "statistics")?, ids))?;
    let summaries = stmt
        .query_map([], |row| {
            let summary = RowSummary {
                rows: row.get(1)?,
                means: row.get(2)?,
                sums: row.get(3)?,
                first_ts: value_to_timestamp(&stored(&row.get(4)?)),
                last_ts: value_to_timestamp(&stored(&row.get(5)?)),
            };
            Ok((row.get::<_, i64>(0)?, summary))
        })?
        .collect::<rusqlite::Result<Vec<(i64, RowSummary)>>>()?;
    Ok(summaries)
}

/// Explain why a load that found no usable readings found none.
fn explain(
    conn: &Connection,
    options: &LoadOptions<'_>,
    source: SourceKind,
    tz: &Zone,
) -> String {
    let everything = list_statistics(conn, None).unwrap_or_default();
    let similar = list_statistics(conn, Some(options.entity)).unwrap_or_default();
    explain_no_samples(
        options.entity,
        source,
        options.value,
        options.from,
        options.to,
        find_candidate(&similar, options.entity),
        &catalog::suggest_block(&everything, options.entity, tz),
        tz,
    )
}

/// Create the recorder tables in an empty database.
fn create_schema(conn: &Connection, flavour: Flavour) {
    conn.execute_batch(flavour.schema()).expect("test schema is valid SQL");
}

/// Register a measurement statistic (hourly means) and return its `metadata_id`.
fn insert_statistic_meta(conn: &Connection, statistic_id: &str, unit: Option<&str>) -> i64 {
    insert_statistic_meta_with_flags(conn, statistic_id, unit, true, false)
}

/// Register a statistic with explicit `has_mean` / `has_sum` flags, which are allowed to
/// disagree with the rows.
fn insert_statistic_meta_with_flags(
    conn: &Connection,
    statistic_id: &str,
    unit: Option<&str>,
    has_mean: bool,
    has_sum: bool,
) -> i64 {
    conn.execute(
        "INSERT INTO statistics_meta (statistic_id, source, unit_of_measurement, has_mean, has_sum, name)
         VALUES (?1, 'recorder', ?2, ?3, ?4, NULL)",
        (statistic_id, unit, has_mean as i64, has_sum as i64),
    )
    .expect("insert statistics_meta");
    conn.last_insert_rowid()
}

/// Add one row to `statistics` or `statistics_short_term`.
fn insert_statistics_row(
    conn: &Connection,
    flavour: Flavour,
    table: &str,
    metadata_id: i64,
    start_ts: i64,
    mean: Option<f64>,
) {
    let (min, max) = (mean.map(|value| value * 0.5), mean.map(|value| value * 1.5));
    match flavour {
        Flavour::Modern => conn.execute(
            &format!(
                "INSERT INTO {table} (created_ts, metadata_id, start_ts, mean, min, max) \
                 VALUES (?1, ?2, ?3, ?4, ?5, ?6)"
            ),
            (start_ts as f64, metadata_id, start_ts as f64, mean, min, max),
        ),
        Flavour::Legacy => {
            let text = format_utc(start_ts);
            conn.execute(
                &format!(
                    "INSERT INTO {table} (created, metadata_id, start, mean, min, max) \
                     VALUES (?1, ?2, ?3, ?4, ?5, ?6)"
                ),
                (&text, metadata_id, &text, mean, min, max),
            )
        }
    }
    .expect("insert statistics row");
}

/// Add one cumulative-counter row: `sum` and `state` populated, `mean` left NULL.
fn insert_statistics_sum_row(
    conn: &Connection,
    flavour: Flavour,
    table: &str,
    metadata_id: i64,
    start_ts: i64,
    sum: f64,
) {
    match flavour {
        Flavour::Modern => conn.execute(
            &format!(
                "INSERT INTO {table} (created_ts, metadata_id, start_ts, mean, min, max, state, sum) \
                 VALUES (?1, ?2, ?3, NULL, NULL, NULL, ?4, ?4)"
            ),
            (start_ts as f64, metadata_id, start_ts as f64, sum),
        ),
        Flavour::Legacy => {
            let text = format_utc(start_ts);
            conn.execute(
                &format!(
                    "INSERT INTO {table} (created, metadata_id, start, mean, min, max, state, sum) \
                     VALUES (?1, ?2, ?3, NULL, NULL, NULL, ?4, ?4)"
                ),
                (&text, metadata_id, &text, sum),
            )
        }
    }
    .expect("insert statistics sum row");
}

/// A uniform number in `[0, 1)`; floating point.
fn next_unit(rng: &mut Lcg) -> f64 {
    f64::from(rng.next_u32()) / 2_147_483_648.0
}

/// Watts a 8 kWp south-facing array might plausibly produce at a UTC instant, with a
/// day/night cycle, a seasonal envelope and cloudy days mixed in; floating point.
fn synthetic_watts(ts: i64, rng: &mut Lcg, cloud_factor: f64) -> f64 {
    const SECONDS_PER_DAY: f64 = 86_400.0;
    let day_of_year = (ts as f64 / SECONDS_PER_DAY) % 365.25;
    let hour = (ts as f64 % SECONDS_PER_DAY) / 3_600.0;

    // Seasonal peak output: ~7.5 kW at midsummer, ~1.8 kW at midwinter.
    let season = ((day_of_year - 172.0) / 365.25 * std::f64::consts::TAU).cos();
    let peak = 4_650.0 + 2_850.0 * season;
    // Daylight window, wider in summer than in winter.
    let half_day = 4.0 + 2.5 * season;
    let solar_noon = 12.0;
    let from_noon = (hour - solar_noon).abs();
    if from_noon >= half_day {
        return 0.0;
    }
    let shape = (from_noon / half_day * std::f64::consts::FRAC_PI_2).cos();
    let jitter = 0.9 + 0.2 * next_unit(rng);
    (peak * shape * shape * cloud_factor * jitter).max(0.0)
}

/// How much of the sun a day lets through, roughly one day in three being overcast;
/// floating point.
fn cloud_factor(rng: &mut Lcg) -> f64 {
    if next_unit(rng) < 0.34 {
        0.15 + 0.35 * next_unit(rng)
    } else {
        0.85 + 0.15 * next_unit(rng)
    }
}

/// The mean over an hour, the way hourly statistics average it; floating point.
fn hourly_mean(start: i64, rng: &mut Lcg, cloud_factor: f64) -> f64 {
    (0..6).map(|slot| synthetic_watts(start + slot * 600, rng, cloud_factor)).sum::<f64>() / 6.0
}

/// Write a cumulative energy counter (kWh) alongside a power sensor, the way a real
/// integration exposes both, and return its `metadata_id`.
fn insert_synthetic_energy_counter(
    conn: &Connection,
    statistic_id: &str,
    start_ts: i64,
    days: i64,
    seed: u64,
    outages: &Outages,
) -> i64 {
    let metadata_id =
        insert_statistic_meta_with_flags(conn, statistic_id, Some("kWh"), false, true);
    let mut rng = Lcg::new(seed);
    let mut total = 0.0;
    conn.execute_batch("BEGIN").expect("begin transaction");
    for day in 0..days {
        let cloud_factor = cloud_factor(&mut rng);
        for hour in 0..24 {
            let start = start_ts + day * 86_400 + hour * 3_600;
            // An hour at this average power adds this many kilowatt hours to the total.
            total += hourly_mean(start, &mut rng, cloud_factor) / 1_000.0;
            if outages.covers(day) {
                insert_statistics_sum_row(
                    conn,
                    Flavour::Modern,
                    "statistics",
                    metadata_id,
                    start,
                    total,
                );
            }
        }
    }
    conn.execute_batch("COMMIT").expect("commit transaction");
    metadata_id
}

fn berlin() -> Zone {
    Zone::named("Europe/Berlin").expect("a known zone")
}

/// Hourly import and export of a household whose array sometimes makes more than it uses.
///
/// The load is set high enough that the house buys more than it sells over the history, so
/// that comparison says something of this generator only; the slot counts do not rest on it.
fn insert_synthetic_grid_power(
    conn: &Connection,
    start_ts: i64,
    days: i64,
    seed: u64,
    outages: &Outages,
) {
    let import = insert_statistic_meta(conn, IMPORT_ENTITY, Some("W"));
    let export = insert_statistic_meta(conn, EXPORT_ENTITY, Some("W"));
    let mut rng = Lcg::new(seed);
    conn.execute_batch("BEGIN").expect("begin transaction");
    for day in 0..days {
        let cloud_factor = cloud_factor(&mut rng);
        for hour in 0..24 {
            let start = start_ts + day * 86_400 + hour * 3_600;
            let made = hourly_mean(start, &mut rng, cloud_factor);
            let used = if (17..22).contains(&hour) { 2_800.0 } else { 1_200.0 };
            if outages.covers(day) {
                let flows = [(import, used - made), (export, made - used)];
                for (sensor, watts) in flows {
                    let watts = Some(watts.max(0.0));
                    insert_statistics_row(
                        conn,
                        Flavour::Modern,
                        "statistics",
                        sensor,
                        start,
                        watts,
                    );
                }
            }
        }
    }
    conn.execute_batch("COMMIT").expect("commit transaction");
}

fn synthetic_grid_database(start: &str, days: i64, seed: u64, outages: &Outages) -> Connection {
    let conn = Connection::open_in_memory().expect("open in-memory database");
    create_schema(&conn, Flavour::Modern);
    insert_synthetic_grid_power(&conn, ts(start), days, seed, outages);
    conn
}

fn database(days: i64) -> Connection {
    synthetic_grid_database("2023-01-01 00:00:00", days, 0xC0FFEE, &Outages::none())
}

fn options(entity: &str) -> LoadOptions<'_> {
    LoadOptions {
        entity,
        source: SourceKind::Auto,
        value: ValueColumn::Mean,
        from: None,
        to: None,
        max_gap: 900,
        scale: None,
        clamp_negative: true,
    }
}

fn economics() -> Economics {
    Economics {
        price_per_kwh: 0.35,
        feed_in_price: 0.0,
        cost_per_kwh: 500.0,
        base_cost: 1_500.0,
        currency: "EUR".to_string(),
    }
}

/// A paired history: the times the library keeps, and the energies beside them.
struct History {
    times: Paired,
    timeline: Timeline,
}

fn pair_up(import: &[Sample<f64>], export: &[Sample<f64>], grid: SlotGrid) -> History {
    let readable = |samples: &[Sample<f64>]| -> Vec<Sample<Option<()>>> {
        samples.iter().map(|s| Sample::new(s.start_ts, s.end_ts, Some(()))).collect()
    };
    let needed = (grid.slot_seconds() as f64 * 0.9).ceil() as u64;
    let times = pair(
        &accumulate(&readable(import), grid),
        &accumulate(&readable(export), grid),
        needed,
    );
    let timeline = timeline(&times, &energies(import, grid), &energies(export, grid));
    History { times, timeline }
}

fn paired_history(conn: &Connection, slot_seconds: i64) -> History {
    let import = load(conn, &options(IMPORT_ENTITY)).expect("import samples load").found;
    let export = load(conn, &options(EXPORT_ENTITY)).expect("export samples load").found;
    let grid = grid_for(&import.samples, &export.samples, slot_seconds).expect("a timeline");
    pair_up(&import.samples, &export.samples, grid)
}

fn run(conn: &Connection) -> (History, Sweep) {
    let paired = paired_history(conn, HOUR);
    let template = BatterySpec {
        capacity_kwh: 0.0,
        usable_fraction: 0.9,
        round_trip: 0.9,
        max_charge_kw: None,
        max_discharge_kw: None,
    };
    let result = sweep(&paired.timeline, &size_range(1.0, 20.0, 1.0), &template, &economics());
    (paired, result)
}

fn draw(sweep: &Sweep, history: &History, options: &PaybackOptions) -> String {
    page(
        &sweep.figures(0.25),
        &history.times,
        &sweep.prices(),
        &sweep.measured(&history.timeline),
        options,
        "0.1.0",
    )
}

#[test]
fn two_years_of_power_sensors_become_a_paired_hourly_timeline() {
    let conn = database(730);
    let paired = paired_history(&conn, HOUR);

    assert_eq!(paired.times.steps.len(), 730 * 24);
    assert_eq!(paired.times.dropped(), 0, "both sensors report every hour");
    assert!(paired.timeline.import_kwh > 0.0 && paired.timeline.export_kwh > 0.0);
    // A household with a big array buys less than it would without one, but the evenings
    // and the winter still cost money.
    assert!(
        paired.timeline.import_kwh > paired.timeline.export_kwh,
        "import {} should exceed export {}",
        paired.timeline.import_kwh,
        paired.timeline.export_kwh
    );
}

#[test]
fn a_partial_year_is_annualised_and_says_so() {
    let conn = database(180);
    let (paired, result) = run(&conn);

    assert!(
        (result.annualisation - 365.2425 / 180.0).abs() < 0.02,
        "{}",
        result.annualisation
    );
    let best = &result.results[result.best.expect("something pays back")];
    let observed_savings = best.simulation.savings(0.35, 0.0);
    assert!((best.annual_savings - observed_savings * result.annualisation).abs() < 1e-9);

    let html = draw(&result, &paired, &PaybackOptions::default());
    assert!(html.contains("less than a year"));
    assert!(html.contains("multiplied by"));
}

#[test]
fn an_outage_drops_the_slots_it_swallowed_rather_than_inventing_them() {
    let outages = Outages {
        missing_ranges: vec![(40, 55)],
        ..Default::default()
    };
    let conn = synthetic_grid_database("2023-01-01 00:00:00", 120, 0xC0FFEE, &outages);
    let paired = paired_history(&conn, HOUR);

    assert_eq!(
        paired.times.steps.len(),
        (120 - 15) * 24,
        "the fortnight the recorder was down cannot be simulated"
    );
    assert_eq!(
        paired.times.dropped(),
        0,
        "neither sensor recorded it, so nothing is dropped"
    );
    assert!(
        paired.times.observed_seconds < 120 * 86_400,
        "and the annualisation is based on what was really seen"
    );
}

#[test]
fn a_sensor_that_stops_early_only_costs_the_hours_it_missed() {
    let conn = database(30);
    // Read the export sensor for a shorter window than the import sensor.
    let import = load(&conn, &options(IMPORT_ENTITY)).expect("import loads").found;
    let mut narrowed = options(EXPORT_ENTITY);
    narrowed.to = Some(ts("2023-01-21 00:00:00"));
    let export = load(&conn, &narrowed).expect("export loads").found;

    let grid = grid_for(&import.samples, &export.samples, HOUR).expect("a timeline");
    let paired = pair_up(&import.samples, &export.samples, grid);

    assert_eq!(paired.times.steps.len(), 20 * 24, "only the overlap is simulated");
    assert_eq!(
        paired.times.dropped_unpaired,
        10 * 24,
        "the hours only the import sensor saw are counted, not silently used"
    );
}

#[test]
fn payback_the_report_is_a_self_contained_html_file() {
    let conn = database(730);
    let (paired, result) = run(&conn);
    let html = draw(
        &result,
        &paired,
        &PaybackOptions {
            import_entity: IMPORT_ENTITY.to_string(),
            export_entity: EXPORT_ENTITY.to_string(),
            metadata: vec![("Timezone".to_string(), berlin().name().to_string())],
            tz: berlin(),
            ..PaybackOptions::default()
        },
    );

    assert!(html.starts_with("<!doctype html>"));
    assert!(html.contains(IMPORT_ENTITY) && html.contains(EXPORT_ENTITY));
    assert!(!html.contains("http://") && !html.contains("https://"));
    assert!(!html.contains("<script"));
    assert!(!html.contains("NaN"));
    assert!(
        html.len() < 1024 * 1024,
        "report grew to {} bytes",
        html.len()
    );

}

#[test]
fn finer_slots_split_the_same_energy_into_more_steps() {
    // Within an hour the house can import and export in turn; an hourly slot still sees
    // both, but the finer the slot the less a battery is credited with bridging.
    let conn = database(60);
    let hourly = paired_history(&conn, HOUR);
    let quarter = paired_history(&conn, 15 * 60);

    assert!(quarter.times.steps.len() > hourly.times.steps.len());
    assert!(
        (quarter.timeline.import_kwh - hourly.timeline.import_kwh).abs() < 1e-6,
        "the energy is the same however it is sliced"
    );
    assert!((quarter.timeline.export_kwh - hourly.timeline.export_kwh).abs() < 1e-6);
}

#[test]
fn an_energy_counter_passed_by_mistake_is_diagnosed_rather_than_read() {
    let conn = Connection::open_in_memory().expect("in-memory database");
    create_schema(&conn, Flavour::Modern);
    let start = ts("2023-01-01 00:00:00");
    insert_synthetic_grid_power(&conn, start, 10, 0xC0FFEE, &Outages::none());
    insert_synthetic_energy_counter(
        &conn,
        "sensor.grid_import_energy",
        start,
        10,
        0xC0FFEE,
        &Outages::none(),
    );

    let loaded = load(&conn, &options("sensor.grid_import_energy")).expect("the query runs").found;
    assert!(
        loaded.samples.is_empty(),
        "a kWh counter has no mean to read"
    );

    let error =
        explain(&conn, &options("sensor.grid_import_energy"), loaded.source, &Zone::utc());
    assert!(error.contains("sensor.grid_import_energy"), "{error}");
    assert!(
        error.contains(IMPORT_ENTITY),
        "the power sensor beside it must be named: {error}"
    );
}
