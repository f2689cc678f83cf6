use pv_probability::model::Sample;
use pv_probability::storage::series;
use pv_probability::storage::series::{for_each_slot_slice, grid_for, SlotGrid, Slots};

/// Energy per slot in kWh, integrated over the slices of each readable sample.
fn energies(samples: &[Sample<f64>], grid: &SlotGrid) -> Vec<f64> {
    let mut kwh = vec![0.0; grid.len()];
    for sample in samples {
        if sample.watts.is_finite() {
            for slice in for_each_slot_slice(sample.start_ts, sample.end_ts, *grid) {
                kwh[slice.index] += sample.watts * slice.seconds as f64 / 3_600_000.0;
            }
        }
    }
    kwh
}

/// What a sensor contributes to a grid: observation time, and the energy in it.
struct Series {
    slots: Slots,
    kwh: Vec<f64>,
}

impl Series {
    fn kwh(&self, index: usize) -> f64 {
        self.kwh[index]
    }

    fn total_kwh(&self) -> f64 {
        self.kwh.iter().sum()
    }

    fn seconds(&self, index: usize) -> u64 {
        self.slots.seconds(index)
    }

    fn observed_seconds(&self) -> u64 {
        self.slots.observed_seconds()
    }
}

/// The samples with their readings, where there is one.
fn readable(samples: &[Sample<f64>]) -> Vec<Sample<Option<()>>> {
    samples
        .iter()
        .map(|sample| {
            let reading = if sample.watts.is_finite() { Some(()) } else { None };
            Sample::new(sample.start_ts, sample.end_ts, reading)
        })
        .collect()
}

fn accumulate(samples: &[Sample<f64>], grid: SlotGrid) -> Series {
    Series {
        slots: series::accumulate(&readable(samples), grid),
        kwh: energies(samples, &grid),
    }
}

fn accumulate_sequential(samples: &[Sample<f64>], grid: SlotGrid) -> Series {
    Series {
        slots: series::accumulate_sequential(&readable(samples), grid),
        kwh: energies(samples, &grid),
    }
}

const HOUR: i64 = 3_600;

fn grid(len: usize) -> SlotGrid {
    SlotGrid::covering(0, len as i64 * HOUR, HOUR)
}

#[test]
fn a_grid_is_aligned_to_whole_slots() {
    // 09:30 in a database of hourly slots starts the grid at 09:00.
    let grid = SlotGrid::covering(9 * HOUR + 1_800, 11 * HOUR, HOUR);
    assert_eq!(grid.origin_ts(), 9 * HOUR);
    assert_eq!(grid.len(), 2);
    assert_eq!(grid.start_of(1), 10 * HOUR);
    assert_eq!(grid.index_of(9 * HOUR), Some(0));
    assert_eq!(grid.index_of(10 * HOUR - 1), Some(0));
    assert_eq!(grid.index_of(10 * HOUR), Some(1));
    assert_eq!(grid.index_of(11 * HOUR), None, "the end is exclusive");
    assert_eq!(grid.index_of(0), None, "before the grid");
}

#[test]
fn an_hour_at_a_kilowatt_is_a_kilowatt_hour() {
    let slots = accumulate(&[Sample::new(0, HOUR, 1_000.0)], grid(1));
    assert!((slots.kwh(0) - 1.0).abs() < 1e-12, "{}", slots.kwh(0));
    assert_eq!(slots.seconds(0), 3_600);
}

#[test]
fn a_sample_spanning_slots_is_split_by_seconds() {
    // Half an hour either side of the boundary at 10:00.
    let slots = accumulate(
        &[Sample::new(9 * HOUR + 1_800, 10 * HOUR + 1_800, 2_000.0)],
        SlotGrid::covering(9 * HOUR, 11 * HOUR, HOUR),
    );
    assert!((slots.kwh(0) - 1.0).abs() < 1e-12);
    assert!((slots.kwh(1) - 1.0).abs() < 1e-12);
    assert_eq!(slots.seconds(0), 1_800);
    assert_eq!(slots.seconds(1), 1_800);
}

#[test]
fn a_chatty_sensor_integrates_to_the_same_energy() {
    // One hourly mean of 1 kW ...
    let hourly = accumulate(&[Sample::new(0, HOUR, 1_000.0)], grid(1));
    // ... against 60 one-minute readings averaging the same.
    let chatty: Vec<Sample<f64>> = (0..60)
        .map(|minute| {
            let start = minute * 60;
            let watts = if minute % 2 == 0 { 500.0 } else { 1_500.0 };
            Sample::new(start, start + 60, watts)
        })
        .collect();
    let fine = accumulate(&chatty, grid(1));
    assert!((hourly.kwh(0) - fine.kwh(0)).abs() < 1e-12);
    assert_eq!(fine.seconds(0), 3_600);
}

#[test]
fn samples_outside_the_grid_are_ignored() {
    let grid = SlotGrid::covering(10 * HOUR, 11 * HOUR, HOUR);
    let slots = accumulate(
        &[
            Sample::new(0, HOUR, 5_000.0),                    // before
            Sample::new(20 * HOUR, 21 * HOUR, 5_000.0),       // after
            Sample::new(10 * HOUR, 10 * HOUR + 900, 4_000.0), // inside
        ],
        grid,
    );
    assert_eq!(slots.observed_seconds(), 900);
    assert!((slots.total_kwh() - 1.0).abs() < 1e-12);
}

#[test]
fn degenerate_samples_contribute_nothing() {
    let slots = accumulate(
        &[
            Sample::new(0, 0, 1_000.0),
            Sample::new(HOUR, 0, 1_000.0),
            Sample::new(0, HOUR, f64::NAN),
        ],
        grid(2),
    );
    assert_eq!(slots.total_kwh(), 0.0);
    assert_eq!(slots.observed_seconds(), 0);
}

#[test]
fn the_parallel_and_sequential_folds_agree() {
    let samples: Vec<Sample<f64>> = (0..50_000)
        .map(|index| {
            let start = index * 300;
            Sample::new(start, start + 300, (index % 4_000) as f64)
        })
        .collect();
    let grid = grid_for::<f64, f64>(&samples, &[], HOUR).expect("a grid");
    let parallel = accumulate(&samples, grid);
    let sequential = accumulate_sequential(&samples, grid);

    // Floating point addition is not associative, so a chunked fold may differ in the
    // last bits; anything larger than that would be a real disagreement.
    for index in 0..grid.len() {
        assert!(
            (parallel.kwh(index) - sequential.kwh(index)).abs() < 1e-9,
            "slot {index}: {} vs {}",
            parallel.kwh(index),
            sequential.kwh(index)
        );
        assert_eq!(
            parallel.seconds(index),
            sequential.seconds(index),
            "slot {index} saw different observation time"
        );
    }
    assert!((parallel.total_kwh() - sequential.total_kwh()).abs() < 1e-6);
}

#[test]
fn the_grid_covers_both_sensors() {
    let left = [Sample::new(5 * HOUR, 6 * HOUR, 100.0)];
    let right = [Sample::new(9 * HOUR, 10 * HOUR, 100.0)];
    let grid = grid_for(&left, &right, HOUR).unwrap();
    assert_eq!(grid.origin_ts(), 5 * HOUR);
    assert_eq!(grid.len(), 5);
    assert_eq!(grid_for::<f64, f64>(&[], &[], HOUR), None);
}

#[test]
fn five_minute_slots_work_the_same_way() {
    let grid = SlotGrid::covering(0, HOUR, 300);
    assert_eq!(grid.len(), 12);
    let slots = accumulate(&[Sample::new(0, HOUR, 600.0)], grid);
    assert_eq!(slots.seconds(11), 300);
    assert!((slots.total_kwh() - 0.6).abs() < 1e-12);
}

#[test]
fn slices_cover_exactly_what_lies_on_the_grid() {
    let grid = SlotGrid::covering(9 * HOUR, 11 * HOUR, HOUR);
    let slices = for_each_slot_slice(8 * HOUR, 10 * HOUR + 600, grid);
    let slices: Vec<(usize, u64)> = slices.iter().map(|s| (s.index, s.seconds)).collect();
    assert_eq!(slices, vec![(0, 3_600), (1, 600)]);
    assert!(for_each_slot_slice(20 * HOUR, 21 * HOUR, grid).is_empty());
}

#[test]
fn slots_merge_by_adding_their_seconds() {
    let mut left = Slots::new(grid(2));
    left.add(0, 100);
    left.add(7, 100);
    let mut right = Slots::new(grid(2));
    right.add(0, 20);
    right.add(1, 3);
    let merged = left.merge(right);
    assert_eq!((merged.seconds(0), merged.seconds(1), merged.seconds(7)), (120, 3, 0));
    assert_eq!(merged.observed_seconds(), 123);
    assert_eq!(merged.grid().slot_seconds(), HOUR);
}

#[test]
fn a_grid_before_the_epoch_is_aligned_downwards() {
    let grid = SlotGrid::covering(-1, 1, HOUR);
    assert_eq!(grid.origin_ts(), -HOUR);
    assert_eq!(grid.len(), 2);
    assert!(!grid.is_empty());
}
