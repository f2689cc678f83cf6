use pv_probability::aggregate::{analyse, build_grid};
use pv_probability::analysis::{Analysis, Column, Facet};
use pv_probability::coverage::{Coverage, Gap};
use pv_probability::model::{
    AxisError, AxisRequest, BucketSpec, DayWindow, Grid, Grouping, Metric, Sample, HOURS_PER_DAY,
};
use pv_probability::render::color::{
    DEFAULT_LEVELS, HEAT_DARK, HEAT_LIGHT, MAX_LEVELS, MIN_LEVELS,
};
use pv_probability::render::html::{
    facet_stats, facet_table, footer, lede, page, FacetDrawing, PageFigures, PageOptions, TableRow,
};
use pv_probability::render::layout::{
    coverage_section, dark_tokens, describe_gap, document, light_tokens, metadata_list,
    theme_stylesheet, CoverageFigures, Shell,
};
use pv_probability::render::svg::{
    describe_chance, describe_power, mark_runs, run_title, runs, Run, RunMark, SvgOptions, Tick,
};
use pv_probability::render::trim_zeros;
use pv_probability::timeutil::Zone;

const MARGIN_TOP: f64 = 24.0;
const PLOT_HEIGHT: f64 = 260.0;

/// Format a power reading for a label: `0 W`, `950 W`, `1.5 kW`.
fn format_watts(watts: f64) -> String {
    if !watts.is_finite() {
        return "-".to_string();
    }
    if watts.abs() < 1_000.0 {
        return format!("{} W", trim_zeros(&format!("{watts:.0}")));
    }
    format!("{} kW", trim_zeros(&format!("{:.2}", watts / 1_000.0)))
}

/// Format a probability for a label: `100%`, `62%`, `6.2%`, `0.45%`.
fn format_percent(probability: f64) -> String {
    if !probability.is_finite() {
        return "-".to_string();
    }
    let percent = probability * 100.0;
    if percent >= 10.0 || percent == 0.0 {
        format!("{percent:.0}%")
    } else if percent >= 1.0 {
        format!("{}%", trim_zeros(&format!("{percent:.1}")))
    } else {
        format!("{}%", trim_zeros(&format!("{percent:.2}")))
    }
}

/// Gridline positions for an axis running from 0 to `max`, on the familiar
/// 1 / 2 / 2.5 / 5 × 10^n sequence.
fn nice_ticks(max: f64, target: usize) -> Vec<f64> {
    if !max.is_finite() || max <= 0.0 || target == 0 {
        return vec![0.0];
    }
    let rough = max / target as f64;
    let magnitude = 10f64.powf(rough.log10().floor());
    let normalised = rough / magnitude;
    let step = if normalised <= 1.0 {
        1.0
    } else if normalised <= 2.0 {
        2.0
    } else if normalised <= 2.5 {
        2.5
    } else if normalised <= 5.0 {
        5.0
    } else {
        10.0
    } * magnitude;

    let mut ticks = Vec::new();
    let mut value = 0.0;
    while value <= max + step * 1e-9 {
        ticks.push(value);
        value += step;
    }
    ticks
}

/// Watt values that deserve a gridline, given that the axis starts at `bottom`.
fn axis_ticks(bottom: f64, top: f64) -> Vec<f64> {
    let mut ticks = vec![bottom];
    let span = (top - bottom).max(f64::MIN_POSITIVE);
    ticks.extend(
        nice_ticks(top, 5)
            .into_iter()
            .filter(|tick| *tick <= top && *tick - bottom > span * 0.08),
    );
    ticks
}

/// Which colour level a probability lands in, or `None` when it is left blank. `gamma`
/// below one stretches the low end.
fn level(probability: f64, levels: usize, gamma: f64, min_probability: f64) -> Option<usize> {
    if !probability.is_finite() || probability <= 0.0 || probability < min_probability {
        return None;
    }
    let levels = levels.clamp(MIN_LEVELS, MAX_LEVELS);
    let gamma = if gamma.is_finite() && gamma > 0.0 { gamma } else { 1.0 };
    let shaped = probability.clamp(0.0, 1.0).powf(gamma);
    let index = (shaped * levels as f64).floor() as usize;
    Some(index.min(levels - 1))
}

/// The watt axis: the width of a bucket in watts and the buckets that lie on it.
#[derive(Debug, Clone, Copy)]
struct Axis {
    step: f64,
    buckets: BucketSpec,
}

/// The probability at which each level starts.
fn level_edges(levels: usize, gamma: f64) -> Vec<f64> {
    let levels = levels.clamp(MIN_LEVELS, MAX_LEVELS);
    let gamma = if gamma.is_finite() && gamma > 0.0 { gamma } else { 1.0 };
    (0..levels).map(|index| (index as f64 / levels as f64).powf(1.0 / gamma)).collect()
}

impl Axis {
    fn new(step: f64, max: f64) -> Result<Axis, AxisError> {
        let request = AxisRequest {
            step_is_positive: step.is_finite() && step > 0.0,
            maximum_is_positive: max.is_finite() && max > 0.0,
            maximum_holds_a_step: max >= step,
            steps: ((max / step).ceil() as usize).min(usize::MAX - 1),
        };
        BucketSpec::new(&request).map(|buckets| Axis { step, buckets })
    }

    fn lower_edge(&self, bucket: usize) -> f64 {
        bucket as f64 * self.step
    }

    fn top_watts(&self) -> f64 {
        self.lower_edge(self.buckets.len() - 1)
    }

    /// How many whole steps a reading lies up the axis.
    fn steps(&self, watts: f64) -> u64 {
        if watts > 0.0 {
            (watts / self.step).floor() as u64
        } else {
            0
        }
    }

    /// What the readings look like on this axis.
    fn place(&self, samples: &[Sample<f64>]) -> Vec<Sample<Option<u64>>> {
        samples
            .iter()
            .map(|sample| {
                let steps =
                    if sample.watts.is_finite() { Some(self.steps(sample.watts)) } else { None };
                Sample::new(sample.start_ts, sample.end_ts, steps)
            })
            .collect()
    }
}

/// How colours stand for probabilities.
#[derive(Debug, Clone, Copy)]
struct Style {
    levels: usize,
    gamma: f64,
    min_probability: f64,
    metric: Metric,
}

/// The probability in one cell of a column.
fn probability(column: &Column, bucket: usize) -> f64 {
    match column.values.get(bucket) {
        Some(value) if column.weight_seconds > 0 => *value as f64 / column.weight_seconds as f64,
        _ => 0.0,
    }
}

/// The hover text for one run of cells.
fn note(facet: &Facet, column: &Column, hour: usize, run: &Run, axis: &Axis, style: &Style) -> String {
    let low = axis.lower_edge(run.start);
    let high = axis.lower_edge(run.end);
    let power = describe_power(
        style.metric,
        run,
        &axis.buckets,
        &format_watts(low),
        &format_watts(high),
        &format_watts(high + axis.step),
    );
    let highest = probability(column, run.start);
    let lowest = probability(column, run.end);
    let close = (highest - lowest).abs() < 5e-4;
    let chance = describe_chance(close, &format_percent(lowest), &format_percent(highest));
    run_title(&facet.label, hour, &power, &chance)
}

/// The lowest bucket that is drawn.
fn first_bucket(axis: &Axis, style: &Style) -> usize {
    SvgOptions { levels: style.levels, metric: style.metric }.first_bucket(&axis.buckets)
}

/// The runs of cells of one hour, placed on the plot.
fn column_marks(facet: &Facet, hour: usize, axis: &Axis, style: &Style) -> Vec<RunMark> {
    let Some(column) = facet.columns.get(hour) else {
        return Vec::new();
    };
    let first = first_bucket(axis, style);
    let cell_height = PLOT_HEIGHT / (axis.buckets.len() - first) as f64;
    let levels: Vec<Option<usize>> = (0..column.values.len())
        .map(|bucket| {
            let chance = probability(column, bucket);
            level(chance, style.levels, style.gamma, style.min_probability)
        })
        .collect();
    let found = runs(&levels, first);
    let placed = found
        .iter()
        .map(|run| {
            let y = MARGIN_TOP + PLOT_HEIGHT - (run.end + 1 - first) as f64 * cell_height;
            let height = (run.end - run.start + 1) as f64 * cell_height;
            let note = note(facet, column, hour, run, axis, style);
            (format!("{y:.2}"), format!("{height:.2}"), note)
        })
        .collect();
    mark_runs(&found, placed)
}

/// Everything about one facet that rests on measured numbers.
fn drawing(facet: &Facet, axis: &Axis, style: &Style) -> FacetDrawing {
    let bottom = axis.lower_edge(first_bucket(axis, style));
    let top = axis.top_watts();
    let span = (top - bottom).max(f64::MIN_POSITIVE);
    let gridlines = axis_ticks(bottom, top);
    let ticks = gridlines
        .iter()
        .map(|tick| {
            let y = MARGIN_TOP + PLOT_HEIGHT - ((tick - bottom) / span) * PLOT_HEIGHT;
            Tick {
                y: format!("{y:.1}"),
                label_y: format!("{:.1}", y + 4.0),
                label: format_watts(*tick),
            }
        })
        .collect();
    let marks = (0..HOURS_PER_DAY).map(|hour| column_marks(facet, hour, axis, style)).collect();
    let rows = gridlines
        .iter()
        .map(|threshold| {
            let bucket = axis.buckets.index(axis.steps(*threshold));
            let share = |hour: usize| {
                let column = facet.columns.get(hour);
                format_percent(column.map_or(0.0, |column| probability(column, bucket)))
            };
            TableRow {
                power: format_watts(*threshold),
                shares: (0..HOURS_PER_DAY).map(share).collect(),
            }
        })
        .collect();
    FacetDrawing { ticks, marks, rows }
}

/// The numbers that stand around the plots.
fn page_figures(axis: &Axis, style: &Style) -> PageFigures {
    PageFigures {
        step: format_watts(axis.step),
        top: format_watts(axis.top_watts()),
        edges: level_edges(style.levels, style.gamma).into_iter().map(format_percent).collect(),
        whole: format_percent(1.0),
        blank_below: format_percent(style.min_probability),
    }
}

fn axis() -> Axis {
    Axis::new(500.0, 2_000.0).unwrap()
}

/// The history block's numbers, as they read for a single day.
fn coverage_figures() -> CoverageFigures {
    CoverageFigures {
        day_share: "100%".to_string(),
        threshold: "24 h".to_string(),
        missing: "0 h".to_string(),
        longest: "0 h".to_string(),
    }
}

fn draw(analysis: &Analysis, options: &PageOptions) -> String {
    let axis = axis();
    let style = Style {
        levels: options.levels,
        gamma: 0.6,
        min_probability: 0.005,
        metric: analysis.metric,
    };
    let drawings: Vec<FacetDrawing> =
        analysis.facets.iter().map(|facet| drawing(facet, &axis, &style)).collect();
    page(analysis, options, &page_figures(&axis, &style), &drawings, "0.1.0")
}

fn analysis(metric: Metric) -> Analysis {
    let axis = axis();
    let samples: Vec<Sample<f64>> = (0..24)
        .map(|hour| {
            let start = 1_718_928_000 + hour * 3_600; // 2024-06-21, UTC
            Sample::new(start, start + 3_600, f64::from(hour as i32) * 100.0)
        })
        .collect();
    let grid = build_grid(&axis.place(&samples), Grouping::Month, axis.buckets, &Zone::utc());
    analyse(&grid, metric, 1, &[])
}

/// The same options, plus a History block, so the order test sees every section.
fn options_with_coverage() -> PageOptions {
    let samples: Vec<Sample<f64>> = (0..24)
        .map(|hour| {
            let start = 1_718_928_000 + hour * 3_600;
            Sample::new(start, start + 3_600, 500.0)
        })
        .collect();
    PageOptions {
        coverage: Coverage::describe(
            &samples,
            1,
            1,
            &[5],
            Grouping::Month,
            &Zone::utc(),
            24 * 3_600,
        )
        .map(|coverage| {
            let figures = coverage_figures();
            (coverage, figures)
        }),
        ..options()
    }
}

fn options() -> PageOptions {
    PageOptions {
        entity: "sensor.solar_power".to_string(),
        metadata: vec![("Source".to_string(), "statistics".to_string())],
        ..PageOptions::default()
    }
}

#[test]
fn html_renders_a_complete_document() {
    let html = draw(&analysis(Metric::Exceedance), &options());
    assert!(html.starts_with("<!doctype html>"));
    assert!(html.trim_end().ends_with("</html>"));
    assert!(html.contains("<title>Solar power likelihood - sensor.solar_power</title>"));
    assert!(html.contains("<style>"));
    assert!(html.contains("sensor.solar_power"));
    assert!(html.contains("statistics"));
}

#[test]
fn renders_one_plot_per_facet_with_a_table_twin() {
    let analysis = analysis(Metric::Exceedance);
    let html = draw(&analysis, &options());
    assert_eq!(analysis.facets.len(), 1, "the sample data is all in June");
    assert_eq!(html.matches("class=\"facet-plot\"").count(), 1);
    assert_eq!(html.matches("<table>").count(), 1);
    assert!(html.contains("June as a table"));
    assert!(html.contains("<figcaption>"));
}

#[test]
fn hovering_a_cell_is_what_reveals_its_readout() {
    let html = draw(&analysis(Metric::Exceedance), &options());
    assert!(
        html.contains(".facet-plot .readout {"),
        "the readout is styled"
    );
    assert!(
        html.contains("display: none"),
        "readouts start hidden: {html:.0}"
    );
    assert!(
        html.contains(".facet-plot .cell:hover .readout { display: block; }"),
        "a plain :hover rule reveals it - no script, and no reliance on <title>"
    );
}

#[test]
fn html_is_self_contained() {
    let html = draw(&analysis(Metric::Exceedance), &options());
    // No network references of any kind: the file has to work from a USB stick.
    assert!(!html.contains("http://"), "external reference in output");
    assert!(!html.contains("https://"), "external reference in output");
    assert!(!html.contains("<script"), "the page needs no javascript");
    assert!(!html.contains("<link"), "no external stylesheet");
}

#[test]
fn the_theme_switch_offers_auto_light_and_dark() {
    let html = draw(&analysis(Metric::Exceedance), &options());

    assert_eq!(html.matches("name=\"pv-theme\"").count(), 3);
    assert!(
        html.contains("id=\"pv-theme-auto\" checked"),
        "auto is the default"
    );
    assert!(html.contains(">Light</label>"));
    assert!(html.contains(">Dark</label>"));
    assert!(html.contains("Colour theme"), "the group is labelled");
    assert_eq!(html.matches("<label for=\"pv-theme-").count(), 3);
    // Still no script: the switch is the stylesheet reacting to a checked radio.
    assert!(!html.contains("<script"));
}

#[test]
fn an_explicit_choice_beats_the_system_setting_in_both_directions() {
    let html = draw(&analysis(Metric::Exceedance), &options());

    // The system setting only decides while "Auto" is selected ...
    assert!(
        html.contains("#pv-theme-auto:checked ~ .page"),
        "the system rule must be scoped to the auto choice"
    );
    // ... and either explicit choice overrides it, in both directions.
    assert!(html.contains("#pv-theme-light:checked ~ .page"));
    assert!(html.contains("#pv-theme-dark:checked ~ .page"));
    assert!(
        !html.contains(":has("),
        "the switch must not depend on :has(), which is too new to rely on"
    );
}

#[test]
fn the_plots_come_before_the_key_and_the_caveats() {
    let html = draw(&analysis(Metric::Exceedance), &options_with_coverage());
    let at = |needle: &str| {
        html.find(needle)
            .unwrap_or_else(|| panic!("missing {needle}"))
    };

    assert!(
        at("class=\"meta\"") < at("class=\"facets\""),
        "the plots follow the header"
    );
    assert!(
        at("class=\"facets\"") < at("class=\"legend\""),
        "the key follows the plots"
    );
    assert!(
        at("class=\"legend\"") < at("class=\"coverage-summary\""),
        "the history is last"
    );
    assert!(
        at("class=\"coverage-summary\"") < at("class=\"page-footer\""),
        "the footer stays at the bottom"
    );
}

#[test]
fn the_radios_come_before_the_page_they_style() {
    // A sibling selector only reaches forwards, so the inputs have to be first.
    let html = draw(&analysis(Metric::Exceedance), &options());
    let first_input = html.find("class=\"theme-input\"").expect("the radios");
    let wrapper = html.find("<div class=\"page\">").expect("the wrapper");
    assert!(first_input < wrapper, "the radios must precede .page");
    assert!(html.contains("</div>\n</body>"), "the wrapper is closed");
}

#[test]
fn defines_a_colour_for_every_level_in_both_themes() {
    let mut options = options();
    options.levels = 7;
    let html = draw(&analysis(Metric::Exceedance), &options);
    for index in 0..7 {
        assert!(
            html.contains(&format!("--heat-{index}:")),
            "missing level {index}"
        );
        assert!(
            html.contains(&format!(".cells .c{index}")),
            "missing rule {index}"
        );
    }
    assert!(html.contains("prefers-color-scheme: dark"));
    // Both ramps must be present, not one flipped at runtime.
    assert!(html.contains(HEAT_LIGHT[0]));
    assert!(html.contains(HEAT_DARK[0]));
}

#[test]
fn legend_covers_the_whole_probability_range() {
    let html = draw(&analysis(Metric::Exceedance), &options());
    assert!(html.contains("Likelihood"));
    assert!(html.contains("class=\"swatch s0\""));
    assert!(html.contains(&format!("class=\"swatch s{}\"", DEFAULT_LEVELS - 1)));
    assert!(html.contains("fewer than"));
}

#[test]
fn describes_the_metric_that_was_used() {
    let exceedance = draw(&analysis(Metric::Exceedance), &options());
    assert!(exceedance.contains("at least that much"));
    assert!(exceedance.contains("exceedance metric"));

    let density = draw(&analysis(Metric::Density), &options());
    assert!(density.contains("inside that power band"));
    assert!(density.contains("density metric"));
}

#[test]
fn an_analysis_without_data_says_so() {
    let axis = Axis::new(50.0, 200.0).unwrap();
    let empty = analyse(
        &Grid::new(Grouping::Month, axis.buckets, DayWindow::empty()),
        Metric::Exceedance,
        1,
        &[],
    );
    let html = draw(&empty, &options());
    assert!(html.contains("nothing to plot"));
    assert!(!html.contains("class=\"facet-plot\""));
}

#[test]
fn html_user_supplied_text_is_escaped() {
    let mut options = options();
    options.entity = "sensor.<script>alert(1)</script>".to_string();
    options.metadata = vec![("Note".to_string(), "a & b".to_string())];
    let html = draw(&analysis(Metric::Exceedance), &options);
    assert!(!html.contains("<script>alert"));
    assert!(html.contains("&lt;script&gt;"));
    assert!(html.contains("a &amp; b"));
}

#[test]
fn the_frame_puts_everything_in_its_place() {
    let html = document(
        &Shell {
            title: "A & B",
            lede: "what it is",
            stylesheet: "p {}",
            defs: "<svg></svg>",
            footer: "made <here>",
        },
        "<main></main>",
    );
    let at = |needle: &str| html.find(needle).unwrap_or_else(|| panic!("missing {needle}: {html}"));
    assert!(html.starts_with("<!doctype html>"));
    assert!(at("<title>A &amp; B</title>") < at("p {}"));
    assert!(at("p {}") < at("<svg></svg>"));
    assert!(at("<svg></svg>") < at("class=\"theme-input\""));
    assert!(at("what it is") < at("<main></main>"));
    assert!(at("<main></main>") < at("made &lt;here&gt;"));
}

#[test]
fn facts_are_listed_escaped_and_in_order() {
    let entries = vec![
        ("Zone".to_string(), "UTC".to_string()),
        ("Note".to_string(), "a < b".to_string()),
    ];
    assert_eq!(
        metadata_list(&entries),
        "<section class=\"meta\"><dl><div><dt>Zone</dt><dd>UTC</dd></div>\
         <div><dt>Note</dt><dd>a &lt; b</dd></div></dl></section>"
    );
}

#[test]
fn outages_are_described_with_their_ends() {
    let samples = vec![
        Sample::new(0, 3_600, 1.0),
        Sample::new(180_000, 183_600, 1.0),
    ];
    let coverage = Coverage::describe(
        &samples,
        2,
        0,
        &[0],
        Grouping::Month,
        &Zone::utc(),
        24 * 3_600,
    )
    .unwrap();
    let gap = coverage.longest_gap().unwrap();
    assert_eq!(
        describe_gap(gap, "49 h", &Zone::utc()),
        "49 h from 1970-01-01 to 1970-01-03"
    );
    assert_eq!(
        describe_gap(
            &Gap { start_ts: 1_751_500_800, end_ts: 1_751_774_400 },
            "3 d 4 h",
            &Zone::utc()
        ),
        "3 d 4 h from 2025-07-03 to 2025-07-06"
    );
    let figures = CoverageFigures {
        day_share: "67%".to_string(),
        threshold: "24 h".to_string(),
        missing: "2 d 1 h".to_string(),
        longest: "2 d 1 h".to_string(),
    };
    let section = coverage_section(&coverage, &figures, &Zone::utc(), Grouping::Month, Some(3));
    assert!(section.contains("<strong>1970-01-01 to 1970-01-03</strong> (3 days)"), "{section}");
    assert!(section.contains("<strong>2 of them</strong> (67% of the span)"), "{section}");
    assert!(section.contains("1 outage longer than 24 h (2 d 1 h missing in total)"), "{section}");
    assert!(section.contains("fewer than 3 days"), "{section}");
    assert!(section.contains("Less than a year of history"), "{section}");
    let unbroken = Coverage::describe(
        &samples[..1],
        1,
        0,
        &[0],
        Grouping::Month,
        &Zone::utc(),
        24 * 3_600,
    )
    .unwrap();
    let section = coverage_section(&unbroken, &figures, &Zone::utc(), Grouping::Month, None);
    assert!(section.contains("No outage longer than 24 h interrupts it."), "{section}");
}

#[test]
fn captions_say_what_a_facet_rests_on() {
    let analysis = analysis(Metric::Density);
    let facet = &analysis.facets[0];
    assert_eq!(facet_stats(facet), "1 days");
    let rows = vec![
        TableRow { power: "0 W".to_string(), shares: vec!["50%".to_string(); 24] },
        TableRow { power: "1 kW".to_string(), shares: vec!["5%".to_string(); 24] },
    ];
    let table = facet_table(facet, &rows, Metric::Density);
    assert!(table.contains("inside the given power band, by hour of day"), "{table}");
    assert!(table.find("1 kW").unwrap() < table.find("0 W").unwrap(), "the highest first");
    assert_eq!(table.matches("<td>50%</td>").count(), 24);
    assert_eq!(table.matches("<td>1</td>").count(), 24, "the days row");
    assert!(lede(&analysis).contains("per month"));
    assert!(footer(&analysis, "9.9").contains("pv-probability 9.9 - 1 facets, density metric"));
}

#[test]
fn the_stylesheet_holds_the_light_palette_twice_and_the_dark_one_three_times() {
    for levels in [0, 3, 10, 16, 99] {
        let (light, dark) = (light_tokens(levels), dark_tokens(levels));
        let css = theme_stylesheet(levels);
        assert_eq!(css.matches(&light).count(), 2, "{levels}");
        assert_eq!(css.matches(&dark).count(), 3, "{levels}");
        assert!(css.starts_with(&format!(":root {{\n{light}}}\n@media (prefers-color-scheme")));
        assert!(css.ends_with(&format!(
            "#pv-theme-light:checked ~ .page {{\n{light}}}\n\
             #pv-theme-dark:checked ~ .page {{\n{dark}}}\n"
        )));
        assert!(!css.contains(":has("));
    }
}
