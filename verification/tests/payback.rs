use pv_probability::coverage::Coverage;
use pv_probability::model::Grouping;
use pv_probability::order::arrange;
use pv_probability::render::layout::CoverageFigures;
use pv_probability::render::payback::{
    describe, metadata_entries, page, recommendation, sweep_chart, trim_capacity, MeasuredFigures,
    NextFigures, PaybackOptions, PriceFigures, PriceRow, SizeFigures, SweepFigures,
};
use pv_probability::render::svg::Tick;
use pv_probability::render::{group_thousands, trim_zeros};
use pv_probability::storage::pair::{Paired, PairedStep};
use pv_probability::storage::sweep::{fastest_payback, next_after_best};
use pv_probability::timeutil::Zone;

/// Format a probability for a label: `100%`, `62%`, `6.2%`, `0.45%`.
fn format_percent(probability: f64) -> String {
    if !probability.is_finite() {
        return "-".to_string();
    }
    let percent = probability * 100.0;
    if percent >= 10.0 || percent == 0.0 {
        format!("{percent:.0}%")
    } else if percent >= 1.0 {
        format!("{}%", trim_zeros(&format!("{percent:.1}")))
    } else {
        format!("{}%", trim_zeros(&format!("{percent:.2}")))
    }
}

/// Format an amount of energy for a label: `4.2 kWh`, `420 kWh`, `3.7 MWh`.
fn format_kwh(kwh: f64) -> String {
    if !kwh.is_finite() {
        return "-".to_string();
    }
    if kwh.abs() < 10.0 {
        return format!("{} kWh", trim_zeros(&format!("{kwh:.2}")));
    }
    if kwh.abs() < 1_000.0 {
        return format!("{} kWh", group_thousands(&format!("{kwh:.0}")));
    }
    format!("{} MWh", trim_zeros(&format!("{:.2}", kwh / 1_000.0)))
}

/// Format money for a label: `0.35 EUR`, `650 EUR`, `6,500 EUR`.
fn format_money(amount: f64, currency: &str) -> String {
    if !amount.is_finite() {
        return format!("- {currency}");
    }
    let number = if amount.abs() < 10.0 {
        trim_zeros(&format!("{amount:.2}"))
    } else {
        group_thousands(&format!("{amount:.0}"))
    };
    format!("{number} {currency}")
}

/// Format a payback period: `8.4 years`, or what it means when there is not one.
fn format_years(years: Option<f64>) -> String {
    match years {
        None => "never".to_string(),
        Some(years) if !years.is_finite() || years >= 100.0 => "over 100 years".to_string(),
        Some(years) if years < 1.0 => {
            format!("{} months", trim_zeros(&format!("{:.1}", years * 12.0)))
        }
        Some(years) => format!("{} years", trim_zeros(&format!("{years:.1}"))),
    }
}

/// "1.8 years" / "7 months" / "12 days", for a span of observation time.
fn format_span(seconds: f64) -> String {
    let days = seconds / 86_400.0;
    if days < 90.0 {
        return format!("{days:.0} days");
    }
    if days < 550.0 {
        return format!("{:.0} months", days / 30.44);
    }
    format!("{:.1} years", days / 365.2425)
}

/// Gridline positions for an axis running from 0 to `max`, on the familiar
/// 1 / 2 / 2.5 / 5 × 10^n sequence.
fn nice_ticks(max: f64, target: usize) -> Vec<f64> {
    if !max.is_finite() || max <= 0.0 || target == 0 {
        return vec![0.0];
    }
    let rough = max / target as f64;
    let magnitude = 10f64.powf(rough.log10().floor());
    let normalised = rough / magnitude;
    let step = if normalised <= 1.0 {
        1.0
    } else if normalised <= 2.0 {
        2.0
    } else if normalised <= 2.5 {
        2.5
    } else if normalised <= 5.0 {
        5.0
    } else {
        10.0
    } * magnitude;

    let mut ticks = Vec::new();
    let mut value = 0.0;
    while value <= max + step * 1e-9 {
        ticks.push(value);
        value += step;
    }
    ticks
}

/// Seconds in a mean Gregorian year, used to annualise a partial history.
const SECONDS_PER_YEAR: f64 = 365.2425 * 86_400.0;

/// Geometry of the chart, in user units.
const SAVINGS_TOP: f64 = 26.0;
const PAYBACK_TOP: f64 = 196.0;
const PANEL_HEIGHT: f64 = 130.0;

/// One slot both sensors covered, with the energy that crossed the meter in it.
#[derive(Debug, Clone, Copy)]
struct Step {
    seconds: f64,
    import_kwh: f64,
    export_kwh: f64,
}

/// The timeline the simulation runs on.
#[derive(Debug)]
struct Timeline {
    steps: Vec<Step>,
    observed_seconds: f64,
    import_kwh: f64,
    export_kwh: f64,
}

/// The battery being tried out.
#[derive(Debug, Clone, Copy, PartialEq)]
struct BatterySpec {
    /// Nameplate capacity in kWh.
    capacity_kwh: f64,
    /// Share of the nameplate a battery is actually cycled over.
    usable_fraction: f64,
    /// Round trip efficiency, charged half on the way in and half on the way out.
    round_trip: f64,
    /// Charge and discharge power ceilings, `None` for unlimited.
    max_charge_kw: Option<f64>,
    max_discharge_kw: Option<f64>,
}

impl BatterySpec {
    /// The energy actually available to cycle, in kWh.
    fn usable_kwh(&self) -> f64 {
        (self.capacity_kwh * self.usable_fraction).max(0.0)
    }

    /// One-way efficiency, so that `charge * discharge == round_trip`.
    fn one_way(&self) -> f64 {
        self.round_trip.clamp(0.0, 1.0).sqrt()
    }
}

/// What the battery did over the whole history.
#[derive(Debug, Clone, Copy, PartialEq)]
struct Simulation {
    /// Energy delivered to the house that would otherwise have been bought.
    avoided_import_kwh: f64,
    /// Surplus taken from the export instead of being given away.
    lost_export_kwh: f64,
    /// Full equivalent cycles of the usable capacity.
    full_cycles: f64,
}

impl Simulation {
    /// The import it avoided, less the export it swallowed if that export was paid for.
    fn savings(&self, price_per_kwh: f64, feed_in_price: f64) -> f64 {
        self.avoided_import_kwh * price_per_kwh - self.lost_export_kwh * feed_in_price
    }
}

/// Run one battery over the paired steps.
///
/// Each step serves the import first and charges from the surplus afterwards: a battery
/// filled yesterday covers this morning, and today's sun refills it.
fn simulate(steps: &[Step], spec: &BatterySpec) -> Simulation {
    let usable = spec.usable_kwh();
    let eta = spec.one_way();
    let mut soc = 0.0f64;
    let mut result =
        Simulation { avoided_import_kwh: 0.0, lost_export_kwh: 0.0, full_cycles: 0.0 };
    if usable <= 0.0 || eta <= 0.0 {
        return result;
    }
    for step in steps {
        let hours = step.seconds / 3_600.0;

        // Discharge into whatever was being bought this step.
        let ceiling = spec.max_discharge_kw.map_or(f64::INFINITY, |kw| (kw * hours).max(0.0));
        let deliver = step.import_kwh.min(soc * eta).min(ceiling).max(0.0);
        soc -= deliver / eta;
        result.avoided_import_kwh += deliver;

        // Then store what is left of the surplus.
        let ceiling = spec.max_charge_kw.map_or(f64::INFINITY, |kw| (kw * hours).max(0.0));
        let absorb = step.export_kwh.min((usable - soc) / eta).min(ceiling).max(0.0);
        soc += absorb * eta;
        result.lost_export_kwh += absorb;
    }
    result.full_cycles = result.avoided_import_kwh / usable;
    result
}

/// What energy and batteries cost.
#[derive(Debug, Clone, PartialEq)]
struct Economics {
    /// Price of a kilowatt hour taken from the grid.
    price_per_kwh: f64,
    /// What a kilowatt hour fed back is worth. Zero when the export is gifted.
    feed_in_price: f64,
    /// Installed battery cost per kilowatt hour of nameplate capacity.
    cost_per_kwh: f64,
    /// The part of the bill that does not scale with capacity: inverter, wiring, labour.
    base_cost: f64,
    currency: String,
}

impl Economics {
    /// What a battery of this size costs to put in.
    fn investment(&self, capacity_kwh: f64) -> f64 {
        self.base_cost + self.cost_per_kwh * capacity_kwh
    }
}

/// How long an investment takes to pay for itself, or `None` when it never does.
fn payback_years(investment: f64, annual_savings: f64) -> Option<f64> {
    if annual_savings > 0.0 && investment.is_finite() {
        Some(investment / annual_savings)
    } else {
        None
    }
}

/// One battery size, simulated and priced.
#[derive(Debug, Clone)]
struct SizeResult {
    capacity_kwh: f64,
    simulation: Simulation,
    annual_savings: f64,
    investment: f64,
    payback_years: Option<f64>,
    /// Share of the imported energy this battery avoided buying, 0..=1.
    import_reduction: f64,
    cycles_per_year: f64,
    /// What the step up from the previous size, on its own, takes to pay for itself.
    marginal_payback_years: Option<f64>,
}

/// The whole sweep, with the arithmetic that turned an observed period into a year.
#[derive(Debug)]
struct Sweep {
    results: Vec<SizeResult>,
    /// Multiplier taking the observed period up to a full year.
    annualisation: f64,
    /// Position of the fastest payback, if anything pays back at all.
    best: Option<usize>,
    economics: Economics,
}

/// The sizes to try, from a range.
fn size_range(min: f64, max: f64, step: f64) -> Vec<f64> {
    if !(min.is_finite() && max.is_finite() && step.is_finite()) || step <= 0.0 || max < min {
        return Vec::new();
    }
    let count = ((max - min) / step).floor() as usize;
    // Multiplying rather than accumulating keeps 0.1 steps from drifting.
    (0..=count).map(|index| min + step * index as f64).filter(|size| *size > 0.0).collect()
}

/// The rank of a number that is not negative: such numbers order as their bits do.
fn rank(number: f64) -> i64 {
    number.max(0.0).to_bits() as i64
}

/// Simulate one size and price it.
fn try_size(
    timeline: &Timeline,
    capacity_kwh: f64,
    template: &BatterySpec,
    economics: &Economics,
    annualisation: f64,
) -> SizeResult {
    let simulation = simulate(&timeline.steps, &BatterySpec { capacity_kwh, ..*template });
    let annual_savings =
        simulation.savings(economics.price_per_kwh, economics.feed_in_price) * annualisation;
    let investment = economics.investment(capacity_kwh);
    SizeResult {
        capacity_kwh,
        annual_savings,
        investment,
        payback_years: payback_years(investment, annual_savings),
        import_reduction: if timeline.import_kwh > 0.0 {
            simulation.avoided_import_kwh / timeline.import_kwh
        } else {
            0.0
        },
        cycles_per_year: simulation.full_cycles * annualisation,
        marginal_payback_years: None,
        simulation,
    }
}

/// Simulate every size and price the results.
fn sweep(
    timeline: &Timeline,
    sizes: &[f64],
    template: &BatterySpec,
    economics: &Economics,
) -> Sweep {
    let annualisation = if timeline.observed_seconds > 0.0 {
        SECONDS_PER_YEAR / timeline.observed_seconds
    } else {
        0.0
    };
    let ranks: Vec<i64> = sizes.iter().map(|size| rank(*size)).collect();
    let mut results: Vec<SizeResult> = arrange(&ranks)
        .iter()
        .map(|position| {
            try_size(timeline, sizes[*position], template, economics, annualisation)
        })
        .collect();

    // What each step up costs against what it alone adds; the first size is measured against
    // having no battery, which costs nothing.
    let (mut investment, mut savings) = (0.0, 0.0);
    for result in &mut results {
        result.marginal_payback_years =
            payback_years(result.investment - investment, result.annual_savings - savings);
        investment = result.investment;
        savings = result.annual_savings;
    }

    let paybacks: Vec<Option<i64>> =
        results.iter().map(|result| result.payback_years.map(rank)).collect();
    let best = fastest_payback(&paybacks);
    Sweep { results, annualisation, best, economics: economics.clone() }
}

/// A capacity as people write it.
fn capacity(kwh: f64) -> String {
    trim_capacity(&format!("{kwh:.2}"))
}

/// Gridlines for one panel, and the value its full height stands for.
fn panel_scale(max: f64) -> (Vec<f64>, f64) {
    let ticks = nice_ticks(max, 4);
    let span = ticks.last().copied().unwrap_or(0.0).max(max).max(f64::MIN_POSITIVE);
    (ticks, span)
}

/// Where the gridlines of a panel lie.
fn panel_ticks(top: f64, max: f64, label: impl Fn(f64) -> String) -> Vec<Tick> {
    let (ticks, span) = panel_scale(max);
    ticks
        .into_iter()
        .map(|tick| {
            let y = top + PANEL_HEIGHT - (tick / span) * PANEL_HEIGHT;
            Tick {
                y: format!("{y:.1}"),
                label_y: format!("{:.1}", y + 4.0),
                label: label(tick),
            }
        })
        .collect()
}

/// Top edge and height of a bar.
fn bar(top: f64, value: f64, span: f64) -> (String, String) {
    let height = (value / span * PANEL_HEIGHT).clamp(0.0, PANEL_HEIGHT);
    (format!("{:.1}", top + PANEL_HEIGHT - height), format!("{height:.1}"))
}

impl Sweep {
    /// The factor that stretches the history to a year, where it is shorter than one.
    fn stretch(&self) -> Option<String> {
        if self.annualisation > 1.01 {
            Some(format!("{:.2}", self.annualisation))
        } else {
            None
        }
    }

    /// Payback for one size at a different price and cost, without re-simulating: the energy
    /// flows do not depend on what anything costs.
    fn payback_at(&self, result: &SizeResult, price: f64, cost_factor: f64) -> Option<f64> {
        let savings = result.simulation.savings(price, self.economics.feed_in_price)
            * self.annualisation;
        payback_years(self.economics.investment(result.capacity_kwh) * cost_factor, savings)
    }

    fn money(&self, amount: f64) -> String {
        format_money(amount, &self.economics.currency)
    }

    fn size_figures(&self, result: &SizeResult, savings: f64, payback: f64) -> SizeFigures {
        SizeFigures {
            capacity: capacity(result.capacity_kwh),
            investment: self.money(result.investment),
            savings: self.money(result.annual_savings),
            avoided: format_kwh(result.simulation.avoided_import_kwh * self.annualisation),
            reduction: format_percent(result.import_reduction),
            cycles: format!("{:.0}", result.cycles_per_year),
            payback: format_years(result.payback_years),
            step_up: format_years(result.marginal_payback_years),
            savings_bar: bar(SAVINGS_TOP, result.annual_savings, savings),
            payback_bar: result.payback_years.map(|years| bar(PAYBACK_TOP, years, payback)),
        }
    }

    /// Everything about the sweep that a page shows; the prices and the quotes looked at lie
    /// `spread` either side of what they are.
    fn figures(&self, spread: f64) -> SweepFigures {
        let max_savings =
            self.results.iter().map(|result| result.annual_savings).fold(0.0f64, f64::max);
        let max_payback =
            self.results.iter().filter_map(|result| result.payback_years).fold(0.0f64, f64::max);
        let savings_span = panel_scale(max_savings).1;
        let payback_span = panel_scale(max_payback).1;
        let best = self.best.map(|best| &self.results[best]);
        let next = next_after_best(self.best, self.results.len()).map(|next| &self.results[next]);
        let price = self.economics.price_per_kwh;
        let factors = [1.0 - spread, 1.0, 1.0 + spread];
        SweepFigures {
            sizes: self
                .results
                .iter()
                .map(|result| self.size_figures(result, savings_span, payback_span))
                .collect(),
            best: self.best,
            next: best.zip(next).map(|(best, next)| NextFigures {
                capacity: capacity(next.capacity_kwh),
                savings: self.money(next.annual_savings - best.annual_savings),
                investment: self.money(next.investment - best.investment),
                payback: format_years(next.marginal_payback_years),
            }),
            savings_ticks: panel_ticks(SAVINGS_TOP, max_savings, |tick| self.money(tick)),
            payback_ticks: panel_ticks(PAYBACK_TOP, max_payback, |tick| format!("{tick:.0}")),
            quotes: best.map_or(Vec::new(), |best| {
                factors.iter().map(|factor| self.money(best.investment * factor)).collect()
            }),
            price_rows: best.map_or(Vec::new(), |best| {
                factors
                    .iter()
                    .map(|moved| PriceRow {
                        price: self.money(price * moved),
                        paybacks: factors
                            .iter()
                            .map(|factor| {
                                format_years(self.payback_at(best, price * moved, *factor))
                            })
                            .collect(),
                    })
                    .collect()
            }),
        }
    }

    /// The prices a page states.
    fn prices(&self) -> PriceFigures {
        let feed_in = self.economics.feed_in_price;
        PriceFigures {
            price: self.money(self.economics.price_per_kwh),
            feed_in: if feed_in > 0.0 { Some(self.money(feed_in)) } else { None },
            base_cost: self.money(self.economics.base_cost),
            cost_per_kwh: self.money(self.economics.cost_per_kwh),
        }
    }

    /// What the history came to.
    fn measured(&self, timeline: &Timeline) -> MeasuredFigures {
        MeasuredFigures {
            import: format_kwh(timeline.import_kwh),
            export: format_kwh(timeline.export_kwh),
            span: format_span(timeline.observed_seconds),
            annualisation: self.stretch(),
        }
    }
}

/// A paired history: the times the library keeps, and the energies beside them.
struct History {
    times: Paired,
    timeline: Timeline,
}

/// Hourly slots with the energy bought and fed back in each.
fn history(energies: &[(f64, f64)], dropped_partial: usize, dropped_unpaired: usize) -> History {
    let steps: Vec<PairedStep> = (0..energies.len())
        .map(|index| PairedStep { index, start_ts: index as i64 * 3_600, seconds: 3_600 })
        .collect();
    History {
        times: Paired {
            steps,
            slot_seconds: 3_600,
            dropped_partial,
            dropped_unpaired,
            observed_seconds: energies.len() as u64 * 3_600,
        },
        timeline: Timeline {
            steps: energies
                .iter()
                .map(|(import_kwh, export_kwh)| Step {
                    seconds: 3_600.0,
                    import_kwh: *import_kwh,
                    export_kwh: *export_kwh,
                })
                .collect(),
            observed_seconds: energies.len() as f64 * 3_600.0,
            import_kwh: energies.iter().map(|hour| hour.0).sum(),
            export_kwh: energies.iter().map(|hour| hour.1).sum(),
        },
    }
}

/// A year of a day that exports 8 kWh around noon and buys 6 kWh in the evening.
fn paired(days: i64) -> History {
    let mut energies = Vec::new();
    for _ in 0..days {
        for hour in 0..24 {
            energies.push(match hour {
                11 | 12 => (0.0, 4.0),
                18 | 19 => (3.0, 0.0),
                _ => (0.1, 0.0),
            });
        }
    }
    history(&energies, 2, 5)
}

fn sweep_of(history: &History) -> Sweep {
    let template = BatterySpec {
        capacity_kwh: 0.0,
        usable_fraction: 0.9,
        round_trip: 0.9,
        max_charge_kw: None,
        max_discharge_kw: None,
    };
    sweep(&history.timeline, &size_range(1.0, 12.0, 1.0), &template, &economics())
}

fn draw(sweep: &Sweep, history: &History, options: &PaybackOptions) -> String {
    page(
        &sweep.figures(0.25),
        &history.times,
        &sweep.prices(),
        &sweep.measured(&history.timeline),
        options,
        "0.1.0",
    )
}

fn report(days: i64) -> String {
    let paired = paired(days);
    draw(&sweep_of(&paired), &paired, &options())
}

fn economics() -> Economics {
    Economics {
        price_per_kwh: 0.35,
        feed_in_price: 0.0,
        cost_per_kwh: 500.0,
        base_cost: 1_500.0,
        currency: "EUR".to_string(),
    }
}

fn options() -> PaybackOptions {
    PaybackOptions {
        import_entity: "sensor.grid_import_power".to_string(),
        export_entity: "sensor.grid_export_power".to_string(),
        metadata: vec![("Source".to_string(), "statistics".to_string())],
        ..PaybackOptions::default()
    }
}

#[test]
fn payback_renders_a_complete_document() {
    let html = report(365);
    assert!(html.starts_with("<!doctype html>"));
    assert!(html.trim_end().ends_with("</html>"));
    assert!(html.contains("<title>Energy storage payback period</title>"));
    assert!(html.contains("sensor.grid_import_power"));
    assert!(html.contains("sensor.grid_export_power"));
    assert!(html.contains("statistics"));
}

#[test]
fn payback_is_self_contained() {
    let html = report(365);
    assert!(!html.contains("http://"), "external reference in output");
    assert!(!html.contains("https://"), "external reference in output");
    assert!(!html.contains("<script"), "the page needs no javascript");
    assert!(!html.contains("<link"), "no external stylesheet");
    assert!(!html.contains("NaN"));
}

#[test]
fn the_blocks_follow_the_order_the_reader_needs_them_in() {
    let paired = paired(365);
    let mut options = options();
    options.coverage = Coverage::describe(
        &paired.times.samples(),
        365,
        365,
        &[0],
        Grouping::Month,
        &Zone::utc(),
        24 * 3_600,
    )
    .map(|coverage| {
        let figures = CoverageFigures {
            day_share: "100%".to_string(),
            threshold: "24 h".to_string(),
            missing: "0 h".to_string(),
            longest: "0 h".to_string(),
        };
        (coverage, figures)
    });
    let html = draw(&sweep_of(&paired), &paired, &options);
    let at = |needle: &str| {
        html.find(needle)
            .unwrap_or_else(|| panic!("missing {needle}"))
    };

    assert!(at("class=\"meta\"") < at("class=\"panel sweep\""));
    assert!(at("class=\"panel sweep\"") < at("class=\"panel recommendation\""));
    assert!(at("class=\"panel recommendation\"") < at("class=\"panel sensitivity\""));
    assert!(at("class=\"panel sensitivity\"") < at("class=\"panel measured\""));
    assert!(at("class=\"panel measured\"") < at("class=\"coverage-summary\""));
    assert!(at("class=\"coverage-summary\"") < at("class=\"page-footer\""));
}

#[test]
fn every_size_gets_a_bar_and_a_row() {
    let paired = paired(365);
    let sweep = sweep_of(&paired);
    let html = draw(&sweep, &paired, &options());
    assert_eq!(html.matches("class=\"bar").count(), sweep.results.len());
    assert_eq!(
        html.matches("<tr").count(),
        // One row per size, plus the header rows of both tables and three
        // sensitivity rows.
        sweep.results.len() + 2 + 3
    );
    assert!(html.contains("12 kWh"), "the largest size is in the table");
}

#[test]
fn the_fastest_payback_is_marked_in_the_chart_and_the_table() {
    let paired = paired(365);
    let sweep = sweep_of(&paired);
    let best = &sweep.results[sweep.best.expect("something pays back")];
    let html = draw(&sweep, &paired, &options());

    assert_eq!(html.matches("class=\"bar best\"").count(), 1);
    assert_eq!(html.matches("<tr class=\"best\">").count(), 1);
    assert!(html.contains(&format!(
        "<strong>{} kWh</strong> battery pays for itself fastest",
        capacity(best.capacity_kwh)
    )));
}

#[test]
fn a_hover_readout_states_the_whole_row_without_javascript() {
    let html = report(365);
    assert!(html.contains(".sweep-chart .readout {"));
    assert!(html.contains(".sweep-chart .bar:hover .readout { display: block; }"));
    assert!(html.contains("pays back in"));
    assert_eq!(
        html.matches("<title>").count(),
        1,
        "the only <title> is the document's: SVG ones are invisible in Safari"
    );
}

#[test]
fn a_battery_that_never_pays_back_is_said_so_in_words() {
    // One day, with the import before the sun: the battery is empty when it is needed
    // and full when the history ends.
    let energies: Vec<(f64, f64)> = (0..24)
        .map(|hour| {
            (if hour == 3 { 5.0 } else { 0.0 }, if hour == 22 { 5.0 } else { 0.0 })
        })
        .collect();
    let paired = history(&energies, 0, 0);
    let html = draw(&sweep_of(&paired), &paired, &options());

    assert!(html.contains("No battery in this sweep pays for itself"));
    assert!(html.contains("never"), "the table says so per size too");
    // With no best size there is nothing to run a sensitivity on.
    assert!(!html.contains("class=\"panel sensitivity\""));
    assert!(
        html.contains("class=\"never\""),
        "the bars still show the size was tried"
    );
}

#[test]
fn a_short_history_says_that_its_annual_figures_are_extrapolated() {
    let html = report(120);
    assert!(html.contains("less than a year"));
    assert!(html.contains("multiplied by"));

    // A full year needs no such warning.
    assert!(!report(365).contains("multiplied by"));
}

#[test]
fn the_measured_block_owns_up_to_what_was_left_out() {
    let html = report(365);
    assert!(html.contains("7 slots were left out"));
    assert!(html.contains("5 where only one of the two sensors was recording"));
    assert!(html.contains("2 where one of them covered too little"));
    assert!(
        html.contains("grid import avoided rather than as self-sufficiency"),
        "the report must not claim knowledge of the household load"
    );
}

#[test]
fn the_sensitivity_grid_brackets_the_price_and_the_quote() {
    let html = report(365);
    assert!(html.contains("If the numbers move"));
    // 0.35 EUR either side by a quarter.
    assert!(html.contains("0.26 EUR"));
    assert!(html.contains("0.44 EUR"));
    assert!(html.contains("0.35 EUR"));
}

#[test]
fn payback_user_supplied_text_is_escaped() {
    let paired = paired(30);
    let mut options = options();
    options.import_entity = "sensor.<script>alert(1)</script>".to_string();
    options.metadata = vec![("Note".to_string(), "a & b".to_string())];
    let html = draw(&sweep_of(&paired), &paired, &options);
    assert!(!html.contains("<script>alert"));
    assert!(html.contains("&lt;script&gt;"));
    assert!(html.contains("a &amp; b"));
}

#[test]
fn capacities_read_as_people_write_them() {
    assert_eq!(capacity(10.0), "10");
    assert_eq!(capacity(13.5), "13.5");
    assert_eq!(capacity(0.5), "0.5");
}

#[test]
fn the_fastest_payback_is_the_first_of_the_lowest() {
    assert_eq!(fastest_payback(&[None, Some(7), Some(3), Some(3), None]), Some(2));
    assert_eq!(fastest_payback(&[None, None]), None);
    assert_eq!(next_after_best(Some(2), 4), Some(3));
    assert_eq!(next_after_best(Some(3), 4), None);
    assert_eq!(next_after_best(None, 4), None);
}

#[test]
fn sizes_are_arranged_by_their_rank() {
    assert_eq!(arrange(&[rank(10.0), rank(2.5), rank(5.0)]), vec![1, 2, 0]);
    assert_eq!(arrange(&[3, 1, 3, 1]), vec![1, 3, 0, 2], "equal ones keep their order");
}

#[test]
fn a_row_is_described_in_one_line() {
    let sweep = sweep_of(&paired(365)).figures(0.25);
    let first = &sweep.sizes[0];
    assert_eq!(
        describe(first),
        format!(
            "1 kWh: {} a year, 2,000 EUR to install, pays back in {}",
            first.savings, first.payback
        )
    );
}

#[test]
fn a_feed_in_price_is_only_stated_when_there_is_one() {
    let sweep = sweep_of(&paired(30));
    let entries = metadata_entries(&options(), &sweep.prices());
    assert!(!entries.iter().any(|entry| entry.0 == "Feed-in"));
    let paid = PriceFigures { feed_in: Some("0.08 EUR".to_string()), ..sweep.prices() };
    let entries = metadata_entries(&options(), &paid);
    assert!(entries.contains(&("Feed-in".to_string(), "0.08 EUR per kWh".to_string())));
    let last = entries.last().unwrap();
    assert_eq!((last.0.as_str(), last.1.as_str()), ("Battery cost", "1,500 EUR + 500 EUR per kWh"));
}

#[test]
fn the_largest_size_asks_for_a_larger_one() {
    let mut figures = sweep_of(&paired(365)).figures(0.25);
    figures.next = None;
    assert!(recommendation(&figures).contains("raise --max-size to find out"));
}

#[test]
fn a_crowded_axis_only_labels_some_sizes() {
    let history = paired(30);
    let template = BatterySpec {
        capacity_kwh: 0.0,
        usable_fraction: 0.9,
        round_trip: 0.9,
        max_charge_kw: None,
        max_discharge_kw: None,
    };
    let sweep = sweep(&history.timeline, &size_range(1.0, 24.0, 1.0), &template, &economics());
    let chart = sweep_chart(&sweep.figures(0.25));
    // Twenty-four sizes, every second one labelled.
    assert_eq!(chart.matches("text-anchor=\"middle\">").count(), 12 + 1);
}
