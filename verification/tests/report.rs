use pv_probability::coverage::Coverage;
use pv_probability::model::{Grouping, Metric, Sample};
use pv_probability::report::{
    caution_note, coverage_line, last_instant, metadata, nothing_listed, nothing_paired,
    outage_line, paired_coverage_line, payback_metadata, power_limit, report, BestFigures,
    FoundFigures, PaybackFacts, RunFacts,
};
use pv_probability::source::schema::ValueColumn;
use pv_probability::source::SourceKind;
use pv_probability::storage::calendar::{day_counts, present_months};
use pv_probability::storage::pair::{Paired, PairedStep};
use pv_probability::timeutil::{parse_ha_datetime, Zone};

const HOUR: i64 = 3_600;
const DAY: i64 = 86_400;

fn ts(text: &str) -> i64 {
    parse_ha_datetime(text).expect("test timestamp parses")
}

fn coverage(samples: &[Sample<f64>], days: u32, full: u32) -> Coverage {
    Coverage::describe(samples, days, full, &[5], Grouping::Month, &Zone::utc(), 24 * HOUR)
        .expect("samples cover something")
}

/// Two hours of June, three days apart.
fn holed() -> Coverage {
    let base = ts("2025-06-01 00:00:00");
    coverage(
        &[
            Sample::new(base, base + HOUR, 1.0),
            Sample::new(base + 3 * DAY, base + 3 * DAY + HOUR, 1.0),
        ],
        2,
        0,
    )
}

#[test]
fn an_empty_listing_repeats_the_filter() {
    assert_eq!(nothing_listed("ha.db", "  "), "No statistics in ha.db.");
    assert_eq!(nothing_listed("ha.db", "sol\"ar"), "No statistics in ha.db matching \"sol\\\"ar\".");
}

#[test]
fn a_history_that_ends_at_midnight_ends_the_day_before() {
    assert_eq!(last_instant(0, DAY), DAY - 1);
    assert_eq!(last_instant(7, 7), 7);
    assert_eq!(last_instant(7, 8), 7);
}

#[test]
fn the_coverage_line_counts_days_and_outages() {
    assert_eq!(
        coverage_line(&holed(), &Zone::utc(), "24 h", "2 d 23 h"),
        "covers 2025-06-01 to 2025-06-04 (4 days): 2 days observed (0 of them full days), \
         1 outages over 24 h (longest 2 d 23 h)"
    );
    let base = ts("2025-06-01 00:00:00");
    let solid = coverage(&[Sample::new(base, base + 2 * DAY, 1.0)], 2, 2);
    assert_eq!(
        coverage_line(&solid, &Zone::utc(), "24 h", "0 h"),
        "covers 2025-06-01 to 2025-06-02 (2 days): 2 days observed (2 of them full days), \
         no outage over 24 h"
    );
    assert_eq!(
        paired_coverage_line(&holed(), &Zone::utc()),
        "covers 2025-06-01 to 2025-06-04 (4 days): 2 days paired (0 of them full days), \
         1 outages over 24 h"
    );
}

#[test]
fn outages_and_cautions_are_spelled_out() {
    let coverage = holed();
    assert_eq!(
        outage_line(&coverage.gaps[0], "71 h", &Zone::utc()),
        "  outage: 71 h from 2025-06-01 01:00 to 2025-06-04 00:00"
    );
    assert_eq!(
        caution_note(&coverage, 3),
        "note: less than a year of history - percentages are conditional on the days actually \
         recorded, and hours backed by fewer than 3 days are hatched."
    );
}

#[test]
fn the_heatmap_report_lists_its_facts() {
    let facts = RunFacts {
        source: SourceKind::Statistics,
        grouping: Grouping::Month,
        metric: Metric::Exceedance,
        stat: ValueColumn::Max,
        first_ts: Some(ts("2024-01-01 00:00:00")),
        last_ts: Some(ts("2024-02-01 00:00:00")),
        unit: Some("kW".to_string()),
        scale: Some("1000".to_string()),
        max_gap: 900,
        axis: Some("8 kW".to_string()),
    };
    let entry = |key: &str, value: &str| (key.to_string(), value.to_string());
    assert_eq!(
        metadata(&facts, &Zone::utc()),
        vec![
            entry("Source", "statistics"),
            entry("Grouping", "month"),
            entry("Metric", "exceedance"),
            entry("Timezone", "UTC"),
            entry("Statistic", "max"),
            entry("Range", "2024-01-01 to 2024-02-01"),
            entry("Unit", "kW x1000"),
            entry("Axis", "fixed to 8 kW"),
        ]
    );
    let raw = RunFacts { source: SourceKind::States, unit: None, axis: None, ..facts };
    let keys: Vec<String> =
        metadata(&raw, &Zone::utc()).into_iter().map(|(key, value)| key + "=" + &value).collect();
    assert_eq!(
        keys,
        vec![
            "Source=states",
            "Grouping=month",
            "Metric=exceedance",
            "Timezone=UTC",
            "Range=2024-01-01 to 2024-02-01",
            "Scale=x1000",
            "Max gap=900 s",
        ]
    );
}

#[test]
fn the_payback_report_lists_its_facts() {
    let facts = PaybackFacts {
        source: SourceKind::ShortTerm,
        requested: SourceKind::Auto,
        slot_seconds: 300,
        import_span: (Some(ts("2024-01-03 00:00:00")), Some(ts("2024-02-01 00:00:00"))),
        export_span: (Some(ts("2024-01-01 00:00:00")), Some(ts("2024-01-20 00:00:00"))),
        unit: Some("W".to_string()),
        scale: None,
        usable: "90".to_string(),
        round_trip: "85".to_string(),
        max_charge: Some("5".to_string()),
        max_discharge: None,
        max_gap: 900,
    };
    let entry = |key: &str, value: &str| (key.to_string(), value.to_string());
    assert_eq!(
        payback_metadata(&facts, &Zone::utc()),
        vec![
            entry("Source", "statistics_short_term"),
            entry("Timezone", "UTC"),
            entry("Slot", "5 minutes"),
            entry("Range", "2024-01-01 to 2024-02-01"),
            entry("Unit", "W"),
            entry("Battery", "90% usable, 85% round trip, 5 kW charge, unlimited discharge"),
        ]
    );
    assert_eq!(power_limit(&None), "unlimited");
    assert_eq!(power_limit(&Some("3.5".to_string())), "3.5 kW");
}

fn steps() -> Vec<PairedStep> {
    let base = ts("2025-01-31 00:00:00");
    (0..24 + 5)
        .map(|hour| PairedStep {
            index: hour as usize,
            start_ts: base + hour * HOUR,
            seconds: 3_600,
        })
        .collect()
}

#[test]
fn paired_days_and_months_are_counted_locally() {
    assert_eq!(day_counts(&steps(), &Zone::utc()), (2, 1));
    assert_eq!(present_months(&steps(), &Zone::utc()), vec![0, 1]);
    assert_eq!(day_counts(&[], &Zone::utc()), (0, 0));
    // In Tokyo the history starts at nine, and no day is whole.
    let tokyo = Zone::named("Asia/Tokyo").unwrap();
    assert_eq!(day_counts(&steps(), &tokyo), (2, 0));
    assert!(present_months(&[], &tokyo).is_empty());
}

#[test]
fn a_history_without_a_pair_says_what_was_dropped() {
    let paired = Paired {
        steps: Vec::new(),
        slot_seconds: 900,
        dropped_partial: 2,
        dropped_unpaired: 5,
        observed_seconds: 0,
    };
    let text = nothing_paired(&paired, "sensor.a", "sensor.b");
    assert!(
        text.starts_with("`sensor.a` and `sensor.b` never covered the same 15 minute slot"),
        "{text}"
    );
    assert!(
        text.contains("7 slots were dropped: 5 with only one sensor recording, 2 covered too thinly"),
        "{text}"
    );
}

fn found(best: Option<BestFigures>) -> FoundFigures {
    FoundFigures {
        out: "out.html".to_string(),
        kilobytes: "40".to_string(),
        elapsed: "1.00s".to_string(),
        sizes: 20,
        slots: 17_520,
        slot_seconds: 3_600,
        import: "3.7 MWh".to_string(),
        export: "2.1 MWh".to_string(),
        best,
        target: "5 years".to_string(),
        smallest: "1".to_string(),
        largest: "20".to_string(),
        annualisation: None,
    }
}

fn best(met: bool, per_kwh: Option<String>) -> BestFigures {
    BestFigures {
        capacity: "5".to_string(),
        investment: "4,000 EUR".to_string(),
        savings: "500 EUR".to_string(),
        payback: "8 years".to_string(),
        allowed: "2,500 EUR".to_string(),
        quoted: "4,000 EUR".to_string(),
        discount: "38%".to_string(),
        met,
        per_kwh,
        base_cost: "1,500 EUR".to_string(),
    }
}

#[test]
fn the_findings_end_with_what_it_would_have_to_cost() {
    assert_eq!(
        report(&found(Some(best(false, Some("200 EUR".to_string()))))),
        "wrote out.html: 20 sizes over 17520 slots of 60 minutes, 40 kB, 1.00s\n\
         measured 3.7 MWh imported and 2.1 MWh exported\n\
         best payback: 5 kWh for 4,000 EUR saves 500 EUR a year - paid off in 8 years\n\
         for 5 years: it would have to cost 2,500 EUR instead of 4,000 EUR (38% less), or \
         200 EUR per kWh on top of the 1,500 EUR base cost"
    );
    let met = report(&found(Some(best(true, None))));
    assert!(
        met.ends_with(
            "for 5 years: already there - it could cost up to 2,500 EUR, which the 1,500 EUR \
             base cost alone already exceeds"
        ),
        "{met}"
    );
}

#[test]
fn a_run_that_finds_nothing_says_what_was_tried() {
    let mut nothing = found(None);
    nothing.annualisation = Some("3.04".to_string());
    let text = report(&nothing);
    assert!(
        text.contains(
            "best payback: none - no battery between 1 and 20 kWh pays for itself here, so no \
             price would reach 5 years\n"
        ),
        "{text}"
    );
    assert!(
        text.ends_with(
            "note: the history is shorter than a year, so annual figures are the observed \
             period multiplied by 3.04"
        ),
        "{text}"
    );
}
