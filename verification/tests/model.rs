use pv_probability::model::{
    observed_span, AxisError, AxisRequest, BucketSpec, DayWindow, Grid, Grouping, Metric, Sample,
};
use pv_probability::timeutil::{LocalParts, Zone};

fn parts(month: u8, iso_week: u8) -> LocalParts {
    LocalParts {
        hour: 12,
        month,
        iso_week,
        iso_year: 2024,
        year: 2024,
        day: 0,
    }
}

/// The axis that a step and a maximum in watts ask for.
fn axis(step: f64, max: f64) -> Result<BucketSpec, AxisError> {
    BucketSpec::new(&AxisRequest {
        step_is_positive: step.is_finite() && step > 0.0,
        maximum_is_positive: max.is_finite() && max > 0.0,
        maximum_holds_a_step: max >= step,
        steps: (max / step).ceil() as usize,
    })
}

/// How many whole steps a reading lies up the axis.
fn steps(watts: f64, step: f64) -> u64 {
    if watts > 0.0 {
        (watts / step).floor() as u64
    } else {
        0
    }
}

/// The day that the readings of a test fall on.
const DAY: i32 = 19_000;

fn days() -> DayWindow {
    DayWindow::new(DAY, 2)
}

#[test]
fn sample_duration_is_never_negative() {
    assert_eq!(Sample::new(100, 160, 5.0).duration(), 60);
    assert_eq!(Sample::new(160, 100, 5.0).duration(), 0);
}

#[test]
fn samples_clip_to_the_requested_window() {
    let sample = Sample::new(100, 200, 5.0);
    assert_eq!(sample.clipped(None, None), Some(sample));
    assert_eq!(sample.clipped(Some(150), None), Some(Sample::new(150, 200, 5.0)));
    assert_eq!(sample.clipped(None, Some(150)), Some(Sample::new(100, 150, 5.0)));
    assert_eq!(sample.clipped(Some(200), None), None);
    assert_eq!(sample.clipped(None, Some(100)), None);
    assert_eq!(sample.clipped(Some(180), Some(120)), None);
}

#[test]
fn clipping_twice_is_clipping_once() {
    let sample = Sample::new(100, 200, 5.0);
    let once = sample.clipped(Some(120), Some(180)).unwrap();
    assert_eq!(once, Sample::new(120, 180, 5.0));
    assert_eq!(once.clipped(Some(120), Some(180)), Some(once));
}

#[test]
fn the_observed_span_reaches_from_the_first_to_the_last_instant() {
    let samples =
        vec![Sample::new(100, 200, 5.0), Sample::new(50, 70, 1.0), Sample::new(900, 900, 2.0)];
    assert_eq!(observed_span(&samples), Some((50, 200)));
    assert_eq!(observed_span::<f64>(&[]), None);
    assert_eq!(observed_span(&[Sample::new(10, 10, 1.0)]), None);
}

#[test]
fn grouping_maps_local_parts_to_facets() {
    assert_eq!(Grouping::Month.facet_count(), 12);
    assert_eq!(Grouping::Week.facet_count(), 53);
    assert_eq!(Grouping::Month.facet_index(&parts(1, 1)), Some(0));
    assert_eq!(Grouping::Month.facet_index(&parts(12, 1)), Some(11));
    assert_eq!(Grouping::Week.facet_index(&parts(6, 53)), Some(52));
    // Defensive: out-of-range values are dropped rather than panicking.
    assert_eq!(Grouping::Month.facet_index(&parts(13, 1)), None);
    assert_eq!(Grouping::Week.facet_index(&parts(6, 54)), None);
    assert_eq!(Grouping::Week.facet_index(&parts(6, 0)), None);
}

#[test]
fn grouping_labels_read_naturally() {
    assert_eq!(Grouping::Month.facet_label(5), "June");
    assert_eq!(Grouping::Month.facet_short_label(5), "Jun");
    assert_eq!(Grouping::Week.facet_label(22), "Week 23");
    assert_eq!(Grouping::Week.facet_short_label(22), "W23");
}

#[test]
fn groupings_and_metrics_are_named_as_on_the_command_line() {
    assert_eq!(Grouping::Month.to_string(), "month");
    assert_eq!(Grouping::Week.to_string(), "week");
    assert_eq!(Metric::Exceedance.to_string(), "exceedance");
    assert_eq!(Metric::Density.to_string(), "density");
}

#[test]
fn bucket_spec_rejects_nonsense() {
    assert!(axis(0.0, 1000.0).is_err());
    assert!(axis(-50.0, 1000.0).is_err());
    assert!(axis(50.0, 0.0).is_err());
    assert!(axis(f64::NAN, 1000.0).is_err());
    assert!(axis(500.0, 100.0).is_err());
    assert!(axis(50.0, 50.0).is_ok());
}

#[test]
fn an_axis_says_why_it_was_refused() {
    assert_eq!(axis(0.0, 1000.0), Err(AxisError::StepNotPositive));
    assert_eq!(axis(50.0, 0.0), Err(AxisError::MaximumNotPositive));
    assert_eq!(axis(500.0, 100.0), Err(AxisError::MaximumBelowStep));
}

#[test]
fn bucket_indices_follow_the_lower_edge() {
    let spec = axis(50.0, 200.0).unwrap();
    // 0, 50, 100, 150, 200+ => five buckets.
    assert_eq!(spec.len(), 5);
    assert_eq!(spec.index(steps(0.0, 50.0)), 0);
    assert_eq!(spec.index(steps(49.999, 50.0)), 0);
    assert_eq!(spec.index(steps(50.0, 50.0)), 1);
    assert_eq!(spec.index(steps(99.0, 50.0)), 1);
    assert_eq!(spec.index(steps(150.0, 50.0)), 3);
    assert!(!spec.is_empty());
}

#[test]
fn bucket_indices_clamp_outside_the_axis() {
    let spec = axis(50.0, 200.0).unwrap();
    assert_eq!(spec.index(steps(-1.0, 50.0)), 0);
    assert_eq!(spec.index(steps(f64::NAN, 50.0)), 0);
    assert_eq!(spec.index(steps(f64::NEG_INFINITY, 50.0)), 0);
    assert_eq!(spec.index(steps(200.0, 50.0)), 4);
    assert_eq!(spec.index(steps(9_999.0, 50.0)), 4);
    assert_eq!(spec.index(steps(f64::INFINITY, 50.0)), 4);
}

#[test]
fn bucket_spec_handles_a_step_that_does_not_divide_the_maximum() {
    let spec = axis(300.0, 1000.0).unwrap();
    // 0, 300, 600, 900, 1200+ => the axis rounds up past the requested maximum.
    assert_eq!(spec.len(), 5);
    assert_eq!(spec.index(steps(1000.0, 300.0)), 3);
    assert_eq!(spec.index(steps(1300.0, 300.0)), 4);
    assert_eq!(spec.bucket_at_least(4), 4);
    assert_eq!(spec.bucket_at_least(9), 4);
}

#[test]
fn grid_accumulates_weight_per_cell_and_column() {
    let spec = axis(50.0, 200.0).unwrap();
    let mut grid = Grid::new(Grouping::Month, spec, days());
    grid.add(5, 12, steps(120.0, 50.0), 600, DAY);
    grid.add(5, 12, steps(130.0, 50.0), 300, DAY);
    grid.add(5, 13, steps(20.0, 50.0), 100, DAY);

    assert_eq!(grid.cell_weight(5, 12, 2), 900);
    assert_eq!(grid.column_weight(5, 12), 900);
    assert_eq!(grid.column_samples(5, 12), 2);
    assert_eq!(grid.cell_weight(5, 13, 0), 100);
    assert_eq!(grid.total_weight(), 1000);
    assert_eq!(grid.total_samples(), 3);
    assert_eq!(grid.non_empty_facets(), vec![5]);
}

#[test]
fn grid_ignores_out_of_range_and_zero_weight_additions() {
    let spec = axis(50.0, 200.0).unwrap();
    let mut grid = Grid::new(Grouping::Month, spec, days());
    grid.add(12, 0, steps(100.0, 50.0), 60, DAY); // no 13th month
    grid.add(0, 24, steps(100.0, 50.0), 60, DAY); // no 25th hour
    grid.add(0, 0, steps(100.0, 50.0), 0, DAY); // zero duration
    grid.add(0, 0, steps(100.0, 50.0), f64::NAN as u64, DAY); // non-finite duration
    assert_eq!(grid.total_weight(), 0);
    assert_eq!(grid.total_samples(), 0);
    assert!(grid.non_empty_facets().is_empty());
}

#[test]
fn grids_merge_element_wise() {
    let spec = axis(50.0, 200.0).unwrap();
    let mut left = Grid::new(Grouping::Month, spec, days());
    left.add(0, 0, steps(60.0, 50.0), 100, DAY);
    let mut right = Grid::new(Grouping::Month, spec, days());
    right.add(0, 0, steps(60.0, 50.0), 50, DAY);
    right.add(1, 5, steps(10.0, 50.0), 25, DAY);

    let merged = left.merge(right);
    assert_eq!(merged.cell_weight(0, 0, 1), 150);
    assert_eq!(merged.column_samples(0, 0), 2);
    assert_eq!(merged.cell_weight(1, 5, 0), 25);
    assert_eq!(merged.total_weight(), 175);
}

#[test]
fn merging_does_not_depend_on_the_order() {
    let spec = axis(50.0, 200.0).unwrap();
    let grid = |facet: usize, day: i32| {
        let mut grid = Grid::new(Grouping::Month, spec, days());
        grid.add(facet, 3, 1, 100, day);
        grid
    };
    let forth = grid(0, DAY).merge(grid(0, DAY + 1)).merge(grid(1, DAY));
    let back = grid(1, DAY).merge(grid(0, DAY + 1).merge(grid(0, DAY)));
    for merged in [&forth, &back] {
        assert_eq!(merged.cell_weight(0, 3, 1), 200);
        assert_eq!(merged.cell_weight(1, 3, 1), 100);
        assert_eq!(merged.column_days(0, 3), 2);
        assert_eq!(merged.facet_days(1), 1);
        assert_eq!(merged.observed_days(), 2);
        assert_eq!(merged.pooled_column(3), vec![0, 300, 0, 0, 0]);
        assert_eq!(merged.pooled_column_weight(3), 300);
        assert_eq!(merged.pooled_column_samples(3), 3);
        assert_eq!(merged.pooled_column_days(3), 2);
        assert_eq!(merged.days_covering_hours(1), 2);
        assert_eq!(merged.days_covering_hours(2), 0);
    }
    let blank = Grid::new(Grouping::Month, spec, days());
    assert_eq!(forth.merge(blank).total_weight(), 300);
}

#[test]
fn a_day_outside_the_window_is_not_counted_as_a_day() {
    let spec = axis(50.0, 200.0).unwrap();
    let mut grid = Grid::new(Grouping::Month, spec, days());
    grid.add(0, 0, 0, 10, DAY + 5);
    assert_eq!(grid.total_weight(), 10);
    assert_eq!(grid.observed_days(), 0);
}

#[test]
fn day_windows_know_their_days() {
    let window = DayWindow::new(10, 3);
    assert_eq!(window.len(), 3);
    assert_eq!(window.position(9), None);
    assert_eq!(window.position(10), Some(0));
    assert_eq!(window.position(12), Some(2));
    assert_eq!(window.position(13), None);
    assert_eq!(DayWindow::empty().len(), 1);
    assert_eq!(DayWindow::from_span(0, 86_400, &Zone::utc()).len(), 2);
}
