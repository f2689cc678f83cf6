use pv_probability::coverage::{
    facet_is_reachable, facet_of, gaps, possible_days_per_facet, Coverage, Gap,
};
use pv_probability::model::{Grouping, Sample, Share};
use pv_probability::timeutil::{local_day, parse_ha_datetime, Zone};

fn ts(text: &str) -> i64 {
    parse_ha_datetime(text).expect("test timestamp parses")
}

fn berlin() -> Zone {
    Zone::named("Europe/Berlin").expect("a known zone")
}

fn fraction(share: Share) -> f64 {
    share.part as f64 / share.whole as f64
}

const HOUR: i64 = 3_600;
const DAY: i64 = 86_400;

#[test]
fn continuous_data_has_no_gaps() {
    let samples: Vec<Sample<f64>> = (0..48)
        .map(|hour| Sample::new(hour * HOUR, (hour + 1) * HOUR, 100.0))
        .collect();
    assert!(gaps(&samples, HOUR).is_empty());
}

#[test]
fn a_hole_longer_than_the_threshold_is_reported() {
    let samples = vec![
        Sample::new(0, HOUR, 100.0),
        Sample::new(10 * HOUR, 11 * HOUR, 100.0),
    ];
    assert_eq!(
        gaps(&samples, 6 * HOUR),
        vec![Gap {
            start_ts: HOUR,
            end_ts: 10 * HOUR
        }]
    );
    assert_eq!(gaps(&samples, 6 * HOUR)[0].seconds(), 9 * HOUR);
}

#[test]
fn a_hole_below_the_threshold_is_ignored() {
    let samples = vec![
        Sample::new(0, HOUR, 100.0),
        Sample::new(3 * HOUR, 4 * HOUR, 100.0),
    ];
    assert!(gaps(&samples, 6 * HOUR).is_empty());
    assert_eq!(gaps(&samples, 2 * HOUR).len(), 1);
}

#[test]
fn overlapping_and_touching_samples_do_not_invent_gaps() {
    // A long sample that swallows the next two, then a real hole.
    let samples = vec![
        Sample::new(0, 10 * HOUR, 100.0),
        Sample::new(HOUR, 2 * HOUR, 100.0),
        Sample::new(2 * HOUR, 3 * HOUR, 100.0),
        Sample::new(30 * HOUR, 31 * HOUR, 100.0),
    ];
    let gaps = gaps(&samples, 6 * HOUR);
    assert_eq!(gaps.len(), 1);
    assert_eq!(gaps[0].start_ts, 10 * HOUR);
    assert_eq!(gaps[0].end_ts, 30 * HOUR);
}

#[test]
fn unsorted_input_is_handled() {
    let samples = vec![
        Sample::new(30 * HOUR, 31 * HOUR, 100.0),
        Sample::new(0, HOUR, 100.0),
    ];
    assert_eq!(gaps(&samples, 6 * HOUR).len(), 1);
}

#[test]
fn the_time_before_and_after_the_data_is_not_a_gap() {
    let samples = vec![Sample::new(1_000 * DAY, 1_000 * DAY + HOUR, 100.0)];
    assert!(gaps(&samples, HOUR).is_empty());
    assert!(gaps::<f64>(&[], HOUR).is_empty());
}

#[test]
fn zero_length_samples_are_ignored() {
    let samples = vec![
        Sample::new(0, HOUR, 100.0),
        Sample::new(5 * HOUR, 5 * HOUR, 100.0),
        Sample::new(30 * HOUR, 31 * HOUR, 100.0),
    ];
    let gaps = gaps(&samples, 6 * HOUR);
    assert_eq!(gaps.len(), 1, "the empty sample must not split the hole");
    assert_eq!(gaps[0].seconds(), 29 * HOUR);
}

#[test]
fn possible_days_count_the_calendar_the_span_reaches() {
    // 14 March to 20 April: 18 days of March, 20 of April, nothing else.
    let possible = possible_days_per_facet(
        ts("2025-03-14 00:00:00"),
        ts("2025-04-20 12:00:00"),
        &Zone::utc(),
        Grouping::Month,
    );
    assert_eq!(possible[2], 18, "March");
    assert_eq!(possible[3], 20, "April");
    assert_eq!(possible[0], 0, "January was never in range");
    assert_eq!(possible.len(), 12);
}

#[test]
fn possible_days_include_the_leap_day() {
    let possible = possible_days_per_facet(
        ts("2024-02-01 00:00:00"),
        ts("2024-02-29 23:00:00"),
        &Zone::utc(),
        Grouping::Month,
    );
    assert_eq!(possible[1], 29, "February 2024 has 29 days");
}

#[test]
fn possible_days_work_per_iso_week() {
    let possible = possible_days_per_facet(
        ts("2025-03-14 00:00:00"),
        ts("2025-03-27 12:00:00"),
        &Zone::utc(),
        Grouping::Week,
    );
    let total: u32 = possible.iter().sum();
    assert_eq!(total, 14, "two weeks of days");
    assert!(possible.iter().filter(|days| **days > 0).count() >= 2);
}

#[test]
fn possible_days_follow_the_local_timezone() {
    // 22:30 UTC on 31 May is already 1 June in Berlin.
    let possible = possible_days_per_facet(
        ts("2025-05-31 22:30:00"),
        ts("2025-05-31 23:30:00"),
        &berlin(),
        Grouping::Month,
    );
    assert_eq!(possible[4], 0, "May, locally, was never reached");
    assert_eq!(possible[5], 1, "June");
}

fn describe(samples: &[Sample<f64>], present: &[usize]) -> Coverage {
    Coverage::describe(samples, 2, 2, present, Grouping::Month, &Zone::utc(), 24 * HOUR)
        .expect("samples cover something")
}

#[test]
fn coverage_describes_the_span_and_the_holes() {
    let base = ts("2025-06-01 00:00:00");
    let samples = vec![
        Sample::new(base, base + HOUR, 100.0),
        Sample::new(base + 9 * DAY, base + 9 * DAY + HOUR, 100.0),
    ];
    let coverage = describe(&samples, &[5]);

    assert_eq!(coverage.first_ts, base);
    assert_eq!(coverage.span_days, 10);
    assert_eq!(coverage.observed_days, 2);
    assert_eq!(coverage.observed_seconds, 2 * HOUR as u128);
    assert_eq!(coverage.gaps.len(), 1);
    assert_eq!(coverage.longest_gap().unwrap().seconds(), 9 * DAY - HOUR);
    assert_eq!(coverage.missing_seconds(), 9 * DAY - HOUR);
    assert!((fraction(coverage.day_fraction()) - 0.2).abs() < 1e-9);
    assert!(coverage.is_sparse(), "two days out of ten is sparse");
    assert!(!coverage.covers_full_year());
    assert!(coverage.needs_caution());
}

#[test]
fn coverage_names_only_the_facets_that_were_reachable() {
    // Ten days of June: the other months were never in range, so they are not
    // "missing", they were never possible.
    let base = ts("2025-06-01 00:00:00");
    let samples = vec![Sample::new(base, base + 10 * DAY, 100.0)];
    let coverage = describe(&samples, &[5]);
    assert!(
        coverage.missing_facets.is_empty(),
        "unexpected {:?}",
        coverage.missing_facets
    );

    // With a year of span, a month that carries nothing really is missing.
    let samples = vec![Sample::new(base, base + 400 * DAY, 100.0)];
    let coverage = describe(&samples, &[5]);
    assert!(coverage.missing_facets.contains(&"Jan".to_string()));
    assert!(!coverage.missing_facets.contains(&"Jun".to_string()));
}

#[test]
fn coverage_reports_the_local_dates_it_spans() {
    let samples = vec![Sample::new(
        ts("2025-03-14 08:00:00"),
        ts("2025-03-20 00:00:00"),
        100.0,
    )];
    let coverage = describe(&samples, &[2]);
    let (first, last) = coverage.local_dates(&Zone::utc());
    assert_eq!(first.unwrap().to_string(), "2025-03-14");
    // The last instant is exclusive: midnight belongs to the 19th.
    assert_eq!(last.unwrap().to_string(), "2025-03-19");
}

#[test]
fn coverage_needs_at_least_one_real_sample() {
    assert!(Coverage::describe::<f64>(&[], 0, 0, &[], Grouping::Month, &Zone::utc(), HOUR).is_none());
    let empty = vec![Sample::new(10, 10, 5.0)];
    assert!(Coverage::describe(&empty, 0, 0, &[], Grouping::Month, &Zone::utc(), HOUR).is_none());
}

#[test]
fn dense_history_is_not_thin() {
    let base = ts("2024-01-01 00:00:00");
    let samples = vec![Sample::new(base, base + 200 * DAY, 100.0)];
    let coverage =
        Coverage::describe(&samples, 200, 200, &[0], Grouping::Month, &Zone::utc(), 24 * HOUR)
            .expect("coverage");
    assert!(!coverage.is_sparse(), "unbroken data is not sparse");
    assert!(coverage.gaps.is_empty());
    // ... but two hundred days is still less than a year of seasons.
    assert!(!coverage.covers_full_year());
    assert!(coverage.needs_caution());
}

#[test]
fn a_solid_year_needs_no_caution() {
    let base = ts("2024-01-01 00:00:00");
    let samples = vec![Sample::new(base, base + 400 * DAY, 100.0)];
    let coverage = Coverage::describe(&samples, 400, 400, &[], Grouping::Month, &Zone::utc(), 24 * HOUR)
        .expect("coverage");
    assert!(coverage.covers_full_year());
    assert!(!coverage.is_sparse());
    assert!(!coverage.needs_caution());
}

#[test]
fn a_long_but_patchy_history_is_still_sparse() {
    // Two years of span, but the recorder was only up for a hundred days of it.
    let base = ts("2024-01-01 00:00:00");
    let samples = vec![
        Sample::new(base, base + 100 * DAY, 100.0),
        Sample::new(base + 700 * DAY, base + 701 * DAY, 100.0),
    ];
    let coverage = Coverage::describe(&samples, 101, 101, &[], Grouping::Month, &Zone::utc(), 24 * HOUR)
        .expect("coverage");
    assert!(coverage.covers_full_year());
    assert!(coverage.is_sparse());
    assert!(coverage.needs_caution());
}

#[test]
fn facets_of_instants_follow_the_grouping() {
    assert_eq!(
        facet_of(ts("2025-06-15 12:00:00"), &Zone::utc(), Grouping::Month),
        Some(5)
    );
    assert_eq!(
        facet_of(ts("2025-01-02 12:00:00"), &Zone::utc(), Grouping::Week),
        Some(0)
    );
}

#[test]
fn the_missing_fraction_is_what_the_span_lacks() {
    let samples = vec![
        Sample::new(0, 25 * HOUR, 100.0),
        Sample::new(75 * HOUR, 100 * HOUR, 100.0),
    ];
    let coverage = describe(&samples, &[0]);
    // Five local days were touched, which makes a span of 120 hours.
    assert!((fraction(coverage.missing_fraction()) - 50.0 / 120.0).abs() < 1e-9);
    assert_eq!(coverage.missing_seconds(), 50 * HOUR);
}

#[test]
fn of_two_equal_holes_the_later_one_is_named() {
    let samples = vec![
        Sample::new(0, HOUR, 100.0),
        Sample::new(31 * HOUR, 32 * HOUR, 100.0),
        Sample::new(62 * HOUR, 63 * HOUR, 100.0),
    ];
    let coverage = describe(&samples, &[0]);
    assert_eq!(coverage.gaps.len(), 2);
    assert_eq!(coverage.longest_gap().unwrap().start_ts, 32 * HOUR);
}

#[test]
fn a_short_span_only_reaches_the_facets_it_touches() {
    let first = local_day(ts("2025-03-14 00:00:00"), &Zone::utc());
    let last = local_day(ts("2025-04-20 00:00:00"), &Zone::utc());
    let reached: Vec<usize> =
        (0..12).filter(|month| facet_is_reachable(*month, first, last, Grouping::Month)).collect();
    assert_eq!(reached, vec![2, 3]);
    assert!(facet_is_reachable(0, first, first + 365, Grouping::Month));
}

#[test]
fn a_week_that_no_day_lies_in_is_not_reachable_however_long_the_span() {
    let first = local_day(ts("2022-01-03 00:00:00"), &Zone::utc());
    let last = local_day(ts("2023-06-01 00:00:00"), &Zone::utc());
    assert!(!facet_is_reachable(52, first, last, Grouping::Week));
    assert!((0..52).all(|week| facet_is_reachable(week, first, last, Grouping::Week)));
    let eve = local_day(ts("2021-01-01 00:00:00"), &Zone::utc());
    assert!(facet_is_reachable(52, eve, last, Grouping::Week), "a year of 53 weeks");
    assert!(!facet_is_reachable(0, last, first, Grouping::Week), "no days at all");
    assert!(!facet_is_reachable(99, first, last, Grouping::Week), "no such facet");
}
