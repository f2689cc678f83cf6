use pv_probability::analysis::{Column, ColumnStatus, Facet};
use pv_probability::model::{AxisError, AxisRequest, BucketSpec, Metric, Sample, HOURS_PER_DAY};
use pv_probability::render::color::{MAX_LEVELS, MIN_LEVELS};
use pv_probability::render::html::{FacetDrawing, TableRow};
use pv_probability::render::svg::{
    coverage_strip, describe_chance, describe_power, facet_size, facet_svg, hoverable, run_title,
    mark_runs, runs, Run, RunMark, SvgOptions, Tick,
};
use pv_probability::render::trim_zeros;

const MARGIN_TOP: f64 = 24.0;
const PLOT_HEIGHT: f64 = 260.0;

/// Format a power reading for a label: `0 W`, `950 W`, `1.5 kW`.
fn format_watts(watts: f64) -> String {
    if !watts.is_finite() {
        return "-".to_string();
    }
    if watts.abs() < 1_000.0 {
        return format!("{} W", trim_zeros(&format!("{watts:.0}")));
    }
    format!("{} kW", trim_zeros(&format!("{:.2}", watts / 1_000.0)))
}

/// Format a probability for a label: `100%`, `62%`, `6.2%`, `0.45%`.
fn format_percent(probability: f64) -> String {
    if !probability.is_finite() {
        return "-".to_string();
    }
    let percent = probability * 100.0;
    if percent >= 10.0 || percent == 0.0 {
        format!("{percent:.0}%")
    } else if percent >= 1.0 {
        format!("{}%", trim_zeros(&format!("{percent:.1}")))
    } else {
        format!("{}%", trim_zeros(&format!("{percent:.2}")))
    }
}

/// Gridline positions for an axis running from 0 to `max`, on the familiar
/// 1 / 2 / 2.5 / 5 × 10^n sequence.
fn nice_ticks(max: f64, target: usize) -> Vec<f64> {
    if !max.is_finite() || max <= 0.0 || target == 0 {
        return vec![0.0];
    }
    let rough = max / target as f64;
    let magnitude = 10f64.powf(rough.log10().floor());
    let normalised = rough / magnitude;
    let step = if normalised <= 1.0 {
        1.0
    } else if normalised <= 2.0 {
        2.0
    } else if normalised <= 2.5 {
        2.5
    } else if normalised <= 5.0 {
        5.0
    } else {
        10.0
    } * magnitude;

    let mut ticks = Vec::new();
    let mut value = 0.0;
    while value <= max + step * 1e-9 {
        ticks.push(value);
        value += step;
    }
    ticks
}

/// Watt values that deserve a gridline, given that the axis starts at `bottom`.
fn axis_ticks(bottom: f64, top: f64) -> Vec<f64> {
    let mut ticks = vec![bottom];
    let span = (top - bottom).max(f64::MIN_POSITIVE);
    ticks.extend(
        nice_ticks(top, 5)
            .into_iter()
            .filter(|tick| *tick <= top && *tick - bottom > span * 0.08),
    );
    ticks
}

/// Which colour level a probability lands in, or `None` when it is left blank. `gamma`
/// below one stretches the low end.
fn level(probability: f64, levels: usize, gamma: f64, min_probability: f64) -> Option<usize> {
    if !probability.is_finite() || probability <= 0.0 || probability < min_probability {
        return None;
    }
    let levels = levels.clamp(MIN_LEVELS, MAX_LEVELS);
    let gamma = if gamma.is_finite() && gamma > 0.0 { gamma } else { 1.0 };
    let shaped = probability.clamp(0.0, 1.0).powf(gamma);
    let index = (shaped * levels as f64).floor() as usize;
    Some(index.min(levels - 1))
}

/// The watt axis: the width of a bucket in watts and the buckets that lie on it.
#[derive(Debug, Clone, Copy)]
struct Axis {
    step: f64,
    buckets: BucketSpec,
}

impl Axis {
    fn new(step: f64, max: f64) -> Result<Axis, AxisError> {
        let request = AxisRequest {
            step_is_positive: step.is_finite() && step > 0.0,
            maximum_is_positive: max.is_finite() && max > 0.0,
            maximum_holds_a_step: max >= step,
            steps: ((max / step).ceil() as usize).min(usize::MAX - 1),
        };
        BucketSpec::new(&request).map(|buckets| Axis { step, buckets })
    }

    fn lower_edge(&self, bucket: usize) -> f64 {
        bucket as f64 * self.step
    }

    fn top_watts(&self) -> f64 {
        self.lower_edge(self.buckets.len() - 1)
    }

    /// How many whole steps a reading lies up the axis.
    fn steps(&self, watts: f64) -> u64 {
        if watts > 0.0 {
            (watts / self.step).floor() as u64
        } else {
            0
        }
    }

    /// What the readings look like on this axis.
    fn place(&self, samples: &[Sample<f64>]) -> Vec<Sample<Option<u64>>> {
        samples
            .iter()
            .map(|sample| {
                let steps =
                    if sample.watts.is_finite() { Some(self.steps(sample.watts)) } else { None };
                Sample::new(sample.start_ts, sample.end_ts, steps)
            })
            .collect()
    }
}

/// How colours stand for probabilities.
#[derive(Debug, Clone, Copy)]
struct Style {
    levels: usize,
    gamma: f64,
    min_probability: f64,
    metric: Metric,
}

/// The probability in one cell of a column.
fn probability(column: &Column, bucket: usize) -> f64 {
    match column.values.get(bucket) {
        Some(value) if column.weight_seconds > 0 => *value as f64 / column.weight_seconds as f64,
        _ => 0.0,
    }
}

/// The hover text for one run of cells.
fn note(facet: &Facet, column: &Column, hour: usize, run: &Run, axis: &Axis, style: &Style) -> String {
    let low = axis.lower_edge(run.start);
    let high = axis.lower_edge(run.end);
    let power = describe_power(
        style.metric,
        run,
        &axis.buckets,
        &format_watts(low),
        &format_watts(high),
        &format_watts(high + axis.step),
    );
    let highest = probability(column, run.start);
    let lowest = probability(column, run.end);
    let close = (highest - lowest).abs() < 5e-4;
    let chance = describe_chance(close, &format_percent(lowest), &format_percent(highest));
    run_title(&facet.label, hour, &power, &chance)
}

/// The lowest bucket that is drawn.
fn first_bucket(axis: &Axis, style: &Style) -> usize {
    SvgOptions { levels: style.levels, metric: style.metric }.first_bucket(&axis.buckets)
}

/// The runs of cells of one hour, placed on the plot.
fn column_marks(facet: &Facet, hour: usize, axis: &Axis, style: &Style) -> Vec<RunMark> {
    let Some(column) = facet.columns.get(hour) else {
        return Vec::new();
    };
    let first = first_bucket(axis, style);
    let cell_height = PLOT_HEIGHT / (axis.buckets.len() - first) as f64;
    let levels: Vec<Option<usize>> = (0..column.values.len())
        .map(|bucket| {
            let chance = probability(column, bucket);
            level(chance, style.levels, style.gamma, style.min_probability)
        })
        .collect();
    let found = runs(&levels, first);
    let placed = found
        .iter()
        .map(|run| {
            let y = MARGIN_TOP + PLOT_HEIGHT - (run.end + 1 - first) as f64 * cell_height;
            let height = (run.end - run.start + 1) as f64 * cell_height;
            let note = note(facet, column, hour, run, axis, style);
            (format!("{y:.2}"), format!("{height:.2}"), note)
        })
        .collect();
    mark_runs(&found, placed)
}

/// Everything about one facet that rests on measured numbers.
fn drawing(facet: &Facet, axis: &Axis, style: &Style) -> FacetDrawing {
    let bottom = axis.lower_edge(first_bucket(axis, style));
    let top = axis.top_watts();
    let span = (top - bottom).max(f64::MIN_POSITIVE);
    let gridlines = axis_ticks(bottom, top);
    let ticks = gridlines
        .iter()
        .map(|tick| {
            let y = MARGIN_TOP + PLOT_HEIGHT - ((tick - bottom) / span) * PLOT_HEIGHT;
            Tick {
                y: format!("{y:.1}"),
                label_y: format!("{:.1}", y + 4.0),
                label: format_watts(*tick),
            }
        })
        .collect();
    let marks = (0..HOURS_PER_DAY).map(|hour| column_marks(facet, hour, axis, style)).collect();
    let rows = gridlines
        .iter()
        .map(|threshold| {
            let bucket = axis.buckets.index(axis.steps(*threshold));
            let share = |hour: usize| {
                let column = facet.columns.get(hour);
                format_percent(column.map_or(0.0, |column| probability(column, bucket)))
            };
            TableRow {
                power: format_watts(*threshold),
                shares: (0..HOURS_PER_DAY).map(share).collect(),
            }
        })
        .collect();
    FacetDrawing { ticks, marks, rows }
}

/// The runs of a column of probabilities.
fn runs_of(values: &[f64], first_bucket: usize, style: &Style) -> Vec<Run> {
    let levels: Vec<Option<usize>> = values
        .iter()
        .map(|value| level(*value, style.levels, style.gamma, style.min_probability))
        .collect();
    runs(&levels, first_bucket)
}

fn draw(facet: &Facet, axis: &Axis, style: &Style) -> String {
    let drawing = drawing(facet, axis, style);
    facet_svg(facet, &drawing.ticks, &drawing.marks)
}

fn title(facet: &Facet, axis: &Axis, hour: usize, run: &Run, metric: Metric) -> String {
    note(facet, &facet.columns[hour], hour, run, axis, &Style { metric, ..options() })
}

fn options() -> Style {
    Style {
        levels: 10,
        gamma: 1.0,
        min_probability: 0.005,
        metric: Metric::Exceedance,
    }
}

fn facet_from(columns: Vec<Vec<f64>>, sufficient: bool) -> Facet {
    facet_with_status(
        columns,
        if sufficient {
            ColumnStatus::Sufficient
        } else {
            ColumnStatus::Thin
        },
    )
}

fn facet_with_status(columns: Vec<Vec<f64>>, status: ColumnStatus) -> Facet {
    let days = match status {
        ColumnStatus::Empty => 0,
        ColumnStatus::Thin => 2,
        ColumnStatus::Sufficient => 20,
    };
    let columns = columns
        .into_iter()
        .enumerate()
        .map(|(hour, values)| Column {
            hour,
            values: values.iter().map(|value| (value * 1_000.0).round() as u128).collect(),
            weight_seconds: 1_000,
            samples: 10,
            days,
            status,
        })
        .collect::<Vec<_>>();
    Facet {
        index: 5,
        label: "June".to_string(),
        short_label: "Jun".to_string(),
        weight_seconds: 1_000 * columns.len() as u128,
        samples: 10 * columns.len() as u128,
        days,
        possible_days: 30,
        columns,
    }
}

#[test]
fn runs_merge_neighbouring_cells_of_the_same_level() {
    // Four cells at the top level, then four in the middle.
    let values = vec![1.0, 1.0, 1.0, 1.0, 0.5, 0.5, 0.5, 0.5];
    let runs = runs_of(&values, 0, &options());
    assert_eq!(
        runs,
        vec![
            Run {
                start: 0,
                end: 3,
                level: 9
            },
            Run {
                start: 4,
                end: 7,
                level: 5
            },
        ]
    );
}

#[test]
fn runs_skip_blank_cells_and_do_not_bridge_them() {
    let values = vec![0.5, 0.0, 0.5];
    let runs = runs_of(&values, 0, &options());
    assert_eq!(runs.len(), 2, "a blank cell must break the run: {runs:?}");
    assert_eq!(
        runs[0],
        Run {
            start: 0,
            end: 0,
            level: 5
        }
    );
    assert_eq!(
        runs[1],
        Run {
            start: 2,
            end: 2,
            level: 5
        }
    );
}

#[test]
fn runs_honour_the_visibility_threshold() {
    let values = vec![0.5, 0.001, 0.4];
    let mut options = options();
    options.min_probability = 0.01;
    assert_eq!(runs_of(&values, 0, &options).len(), 2);

    options.min_probability = 0.0;
    assert_eq!(runs_of(&values, 0, &options).len(), 3);
}

#[test]
fn an_empty_column_produces_no_runs() {
    assert!(runs_of(&[0.0, 0.0, 0.0], 0, &options()).is_empty());
    assert!(runs_of(&[], 0, &options()).is_empty());
}

#[test]
fn a_facet_renders_one_svg_with_cells_and_axes() {
    let axis = Axis::new(50.0, 200.0).unwrap();
    let facet = facet_from(vec![vec![1.0, 0.8, 0.4, 0.1, 0.0]; 24], true);
    let svg = draw(&facet, &axis, &options());

    assert_eq!(svg.matches("<svg").count(), 1);
    assert!(svg.ends_with("</svg>"));
    assert!(svg.contains("hour of day"));
    assert!(svg.contains("<rect"));
    assert!(svg.contains("<title>June 00:00"));
    // Nothing may leak a non-finite coordinate into the document.
    assert!(!svg.contains("NaN"), "{svg}");
    assert!(!svg.contains("inf"), "{svg}");
}

/// Number of heat cells drawn, ignoring the coverage strip's `cov*` rectangles.
fn cell_rects(svg: &str) -> usize {
    svg.matches("<rect class=\"c").count() - svg.matches("<rect class=\"cov").count()
}

#[test]
fn thinly_evidenced_columns_are_hatched_instead_of_coloured() {
    let axis = Axis::new(50.0, 200.0).unwrap();
    let facet = facet_with_status(vec![vec![1.0, 0.8, 0.4, 0.1, 0.0]; 24], ColumnStatus::Thin);
    let svg = draw(&facet, &axis, &options());

    assert_eq!(svg.matches("class=\"thin-data\"").count(), 24);
    assert!(svg.contains("too thin to trust"));
    assert!(svg.contains("only 2 of 30 days"));
    assert_eq!(cell_rects(&svg), 0, "no likelihood may be drawn");
}

#[test]
fn never_recorded_columns_are_marked_differently_from_thin_ones() {
    let axis = Axis::new(50.0, 200.0).unwrap();
    let facet = facet_with_status(vec![vec![0.0; 5]; 24], ColumnStatus::Empty);
    let svg = draw(&facet, &axis, &options());

    assert_eq!(svg.matches("class=\"no-data\"").count(), 24);
    assert!(svg.contains("never recorded"));
    assert!(
        !svg.contains("thin-data"),
        "an unrecorded hour is not a thin one"
    );
}

#[test]
fn every_mark_carries_a_readout_as_well_as_a_title() {
    // Native SVG `<title>` tooltips are not shown at all by WebKit, so the text has to
    // exist as a drawable element too.
    let axis = Axis::new(50.0, 200.0).unwrap();
    let facet = facet_from(vec![vec![1.0, 0.8, 0.4, 0.1, 0.0]; 24], true);
    let svg = draw(&facet, &axis, &options());

    let readouts = svg.matches("class=\"readout\"").count();
    let titles = svg.matches("<title>").count();
    assert_eq!(readouts, titles, "one readout per describable mark");
    assert!(
        readouts > HOURS_PER_DAY,
        "cells and strip alike: {readouts}"
    );
    assert_eq!(
        svg.matches("<g class=\"cell\">").count(),
        readouts,
        "each readout is grouped with the mark that reveals it"
    );
    assert!(
        svg.contains(">June 00:00"),
        "the text is drawable, not just a title"
    );
}

#[test]
fn the_readout_sits_above_the_plot_where_nothing_can_cover_it() {
    let axis = Axis::new(50.0, 200.0).unwrap();
    let facet = facet_from(vec![vec![1.0, 0.8, 0.4, 0.1, 0.0]; 24], true);
    let svg = draw(&facet, &axis, &options());

    assert!(
        svg.contains(&format!("y=\"{:.1}\"", 14.0)),
        "readouts are drawn on their own line"
    );
}

#[test]
fn the_coverage_strip_reports_a_cell_per_hour() {
    let axis = Axis::new(50.0, 200.0).unwrap();
    let facet = facet_from(vec![vec![1.0, 0.8, 0.4, 0.1, 0.0]; 24], true);
    let svg = draw(&facet, &axis, &options());

    assert_eq!(svg.matches("<rect class=\"cov").count(), HOURS_PER_DAY);
    assert!(svg.contains("recorded on 20 of 30 days"));
    assert!(svg.contains(">days</text>"), "the strip labels itself");

    // An hour nobody recorded gets the empty step, not a shaded one.
    let facet = facet_with_status(vec![vec![0.0; 5]; 24], ColumnStatus::Empty);
    let svg = draw(&facet, &axis, &options());
    assert_eq!(svg.matches("class=\"cov-none\"").count(), HOURS_PER_DAY);
}

#[test]
fn the_exceedance_plot_starts_one_step_above_zero() {
    // "At least 0 W" is certain whenever the hour was observed at all, so drawing it
    // would paint a solid band across the night.
    let axis = Axis::new(50.0, 200.0).unwrap();
    let facet = facet_from(vec![vec![1.0, 0.0, 0.0, 0.0, 0.0]; 24], true);
    let svg = draw(&facet, &axis, &options());
    assert_eq!(cell_rects(&svg), 0, "bucket 0 must not be drawn: {svg}");
    assert!(
        svg.contains(">50 W</text>"),
        "the axis should start at 50 W"
    );

    // The density plot keeps every bucket, including the lowest.
    let mut density = options();
    density.metric = Metric::Density;
    let svg = draw(&facet, &axis, &density);
    assert_eq!(cell_rects(&svg), HOURS_PER_DAY);
    assert!(svg.contains(">0 W</text>"));
}

#[test]
fn cells_stack_from_the_baseline_upwards() {
    let axis = Axis::new(50.0, 200.0).unwrap();
    // Certain at 50 W, less so above it.
    let facet = facet_from(vec![vec![1.0, 1.0, 0.5, 0.0, 0.0]; 24], true);
    let svg = draw(&facet, &axis, &options());

    // Four buckets remain once bucket 0 is dropped.
    let cell_height = PLOT_HEIGHT / (axis.buckets.len() - 1) as f64;
    let expected_y = MARGIN_TOP + PLOT_HEIGHT - cell_height;
    assert!(
        svg.contains(&format!("y=\"{expected_y:.2}\"")),
        "the lowest drawn bucket should sit on the baseline, expected y={expected_y:.2}"
    );
    // Nothing may be drawn below the baseline or above the top of the plot.
    assert!(!svg.contains(&format!("y=\"{:.2}\"", MARGIN_TOP + PLOT_HEIGHT)));
}

#[test]
fn run_titles_describe_power_and_likelihood() {
    let axis = Axis::new(500.0, 2_000.0).unwrap();
    let facet = facet_from(vec![vec![1.0, 0.62, 0.62, 0.05, 0.0]; 24], true);

    let single = title(
        &facet,
        &axis,
        13,
        &Run {
            start: 0,
            end: 0,
            level: 9,
        },
        Metric::Exceedance,
    );
    assert_eq!(single, "June 13:00 - at least 0 W: 100%");

    let merged = title(
        &facet,
        &axis,
        13,
        &Run {
            start: 1,
            end: 2,
            level: 5,
        },
        Metric::Exceedance,
    );
    assert_eq!(merged, "June 13:00 - at least 500 W to 1 kW: 62%");

    let density = title(
        &facet,
        &axis,
        13,
        &Run {
            start: 1,
            end: 1,
            level: 5,
        },
        Metric::Density,
    );
    assert_eq!(density, "June 13:00 - 500 W to 1 kW: 62%");
}

#[test]
fn run_titles_show_a_range_when_the_run_spans_probabilities() {
    let axis = Axis::new(500.0, 2_000.0).unwrap();
    let facet = facet_from(vec![vec![1.0, 0.62, 0.55, 0.05, 0.0]; 24], true);
    let title = title(
        &facet,
        &axis,
        9,
        &Run {
            start: 1,
            end: 2,
            level: 5,
        },
        Metric::Exceedance,
    );
    assert_eq!(title, "June 09:00 - at least 500 W to 1 kW: 55% to 62%");
}

#[test]
fn the_drawing_is_as_large_as_its_parts() {
    assert_eq!(facet_size(), (534, 338));
}

#[test]
fn marks_carry_their_readout_with_them() {
    assert_eq!(
        hoverable("<rect/>", "a < b"),
        "<g class=\"cell\"><rect/><text class=\"readout\" x=\"46.0\" y=\"14.0\">a &lt; b</text></g>"
    );
    assert_eq!(run_title("June", 9, "at least 50 W", "62%"), "June 09:00 - at least 50 W: 62%");
    assert_eq!(describe_chance(true, "61%", "62%"), "62%");
    assert_eq!(describe_chance(false, "55%", "62%"), "55% to 62%");
}

#[test]
fn the_open_ended_band_has_no_upper_edge() {
    let axis = Axis::new(500.0, 2_000.0).unwrap();
    let top = Run { start: 4, end: 4, level: 1 };
    assert_eq!(
        describe_power(Metric::Density, &top, &axis.buckets, "2 kW", "2 kW", "2.5 kW"),
        "2 kW and above"
    );
    let merged = Run { start: 3, end: 4, level: 1 };
    assert_eq!(
        describe_power(Metric::Density, &merged, &axis.buckets, "1.5 kW", "2 kW", "2.5 kW"),
        "1.5 kW to 2.5 kW"
    );
}

#[test]
fn a_strip_without_a_calendar_only_counts_days() {
    let mut facet = facet_from(vec![vec![1.0]; 24], true);
    facet.possible_days = 0;
    let strip = coverage_strip(&facet);
    assert!(strip.contains("June 00:00 - recorded on 20 days<"), "{strip}");
    facet.columns.truncate(2);
    assert_eq!(coverage_strip(&facet).matches("<rect").count(), 2);
}

#[test]
fn marks_take_the_level_of_their_run() {
    let found = runs(&[Some(2), Some(2), None, Some(5)], 0);
    let placed = |n: usize| (format!("y{n}"), format!("h{n}"), format!("note {n}"));
    let marks = mark_runs(&found, vec![placed(0), placed(1)]);
    let drawn: Vec<(usize, &str, &str, &str)> = marks
        .iter()
        .map(|mark| (mark.level, mark.y.as_str(), mark.height.as_str(), mark.note.as_str()))
        .collect();
    assert_eq!(drawn, vec![(2, "y0", "h0", "note 0"), (5, "y1", "h1", "note 1")]);
    assert!(mark_runs(&[], Vec::new()).is_empty());
}
