use anyhow::{Context, Error, Result};
use pv_probability::aggregate;
use pv_probability::aggregate::{analyse, build_grid, ranked_seconds};
use pv_probability::analysis::{Analysis, Column, ColumnStatus, Facet};
use pv_probability::coverage::{possible_days_per_facet, Coverage};
use pv_probability::model::{
    AxisError, AxisRequest, BucketSpec, Grouping, Metric, Sample, HOURS_PER_DAY,
};
use pv_probability::render::color::{MAX_LEVELS, MIN_LEVELS};
use pv_probability::render::html::{page, FacetDrawing, PageFigures, PageOptions, TableRow};
use pv_probability::render::layout::CoverageFigures;
use pv_probability::render::svg::{
    describe_chance, describe_power, mark_runs, run_title, runs, Run, RunMark, SvgOptions, Tick,
};
use pv_probability::render::trim_zeros;
use pv_probability::source::schema::{
    anywhere, column_names, not_found_error, states_layout, statistic_query, statistics_layout,
    suggestion_patterns, suggestion_query, table_info_query, value_to_timestamp, StatesLayout,
    StatisticMeta, StatisticsTable, Stored, ValueColumn,
};
use pv_probability::source::states::{readings_from_rows, samples_within, states_query};
use pv_probability::source::statistics::{
    resolve_scale, row_count_query, rows_query, samples_from_rows, WattScale,
};
use pv_probability::source::testdb::{format_utc, ts, Flavour, Lcg, Outages, ENTITY};
use pv_probability::source::{
    nothing_to_read, resolve_auto, AutoFacts, AutoQuestion, AutoStep, LoadedSamples, SourceKind,
};
use pv_probability::timeutil::Zone;
use rusqlite::types::Value;
use rusqlite::Connection;

const MARGIN_TOP: f64 = 24.0;
const PLOT_HEIGHT: f64 = 260.0;

/// Format a power reading for a label: `0 W`, `950 W`, `1.5 kW`.
fn format_watts(watts: f64) -> String {
    if !watts.is_finite() {
        return "-".to_string();
    }
    if watts.abs() < 1_000.0 {
        return format!("{} W", trim_zeros(&format!("{watts:.0}")));
    }
    format!("{} kW", trim_zeros(&format!("{:.2}", watts / 1_000.0)))
}

/// Format a probability for a label: `100%`, `62%`, `6.2%`, `0.45%`.
fn format_percent(probability: f64) -> String {
    if !probability.is_finite() {
        return "-".to_string();
    }
    let percent = probability * 100.0;
    if percent >= 10.0 || percent == 0.0 {
        format!("{percent:.0}%")
    } else if percent >= 1.0 {
        format!("{}%", trim_zeros(&format!("{percent:.1}")))
    } else {
        format!("{}%", trim_zeros(&format!("{percent:.2}")))
    }
}

/// Gridline positions for an axis running from 0 to `max`, on the familiar
/// 1 / 2 / 2.5 / 5 × 10^n sequence.
fn nice_ticks(max: f64, target: usize) -> Vec<f64> {
    if !max.is_finite() || max <= 0.0 || target == 0 {
        return vec![0.0];
    }
    let rough = max / target as f64;
    let magnitude = 10f64.powf(rough.log10().floor());
    let normalised = rough / magnitude;
    let step = if normalised <= 1.0 {
        1.0
    } else if normalised <= 2.0 {
        2.0
    } else if normalised <= 2.5 {
        2.5
    } else if normalised <= 5.0 {
        5.0
    } else {
        10.0
    } * magnitude;

    let mut ticks = Vec::new();
    let mut value = 0.0;
    while value <= max + step * 1e-9 {
        ticks.push(value);
        value += step;
    }
    ticks
}

/// Watt values that deserve a gridline, given that the axis starts at `bottom`.
fn axis_ticks(bottom: f64, top: f64) -> Vec<f64> {
    let mut ticks = vec![bottom];
    let span = (top - bottom).max(f64::MIN_POSITIVE);
    ticks.extend(
        nice_ticks(top, 5)
            .into_iter()
            .filter(|tick| *tick <= top && *tick - bottom > span * 0.08),
    );
    ticks
}

/// Which colour level a probability lands in, or `None` when it is left blank. `gamma`
/// below one stretches the low end.
fn level(probability: f64, levels: usize, gamma: f64, min_probability: f64) -> Option<usize> {
    if !probability.is_finite() || probability <= 0.0 || probability < min_probability {
        return None;
    }
    let levels = levels.clamp(MIN_LEVELS, MAX_LEVELS);
    let gamma = if gamma.is_finite() && gamma > 0.0 { gamma } else { 1.0 };
    let shaped = probability.clamp(0.0, 1.0).powf(gamma);
    let index = (shaped * levels as f64).floor() as usize;
    Some(index.min(levels - 1))
}

/// The watt axis: the width of a bucket in watts and the buckets that lie on it.
#[derive(Debug, Clone, Copy)]
struct Axis {
    step: f64,
    buckets: BucketSpec,
}

/// The probability at which each level starts.
fn level_edges(levels: usize, gamma: f64) -> Vec<f64> {
    let levels = levels.clamp(MIN_LEVELS, MAX_LEVELS);
    let gamma = if gamma.is_finite() && gamma > 0.0 { gamma } else { 1.0 };
    (0..levels).map(|index| (index as f64 / levels as f64).powf(1.0 / gamma)).collect()
}

impl Axis {
    fn new(step: f64, max: f64) -> Result<Axis, AxisError> {
        let request = AxisRequest {
            step_is_positive: step.is_finite() && step > 0.0,
            maximum_is_positive: max.is_finite() && max > 0.0,
            maximum_holds_a_step: max >= step,
            steps: ((max / step).ceil() as usize).min(usize::MAX - 1),
        };
        BucketSpec::new(&request).map(|buckets| Axis { step, buckets })
    }

    fn lower_edge(&self, bucket: usize) -> f64 {
        bucket as f64 * self.step
    }

    fn top_watts(&self) -> f64 {
        self.lower_edge(self.buckets.len() - 1)
    }

    /// How many whole steps a reading lies up the axis.
    fn steps(&self, watts: f64) -> u64 {
        if watts > 0.0 {
            (watts / self.step).floor() as u64
        } else {
            0
        }
    }

    /// What the readings look like on this axis.
    fn place(&self, samples: &[Sample<f64>]) -> Vec<Sample<Option<u64>>> {
        samples
            .iter()
            .map(|sample| {
                let steps =
                    if sample.watts.is_finite() { Some(self.steps(sample.watts)) } else { None };
                Sample::new(sample.start_ts, sample.end_ts, steps)
            })
            .collect()
    }
}

/// How colours stand for probabilities.
#[derive(Debug, Clone, Copy)]
struct Style {
    levels: usize,
    gamma: f64,
    min_probability: f64,
    metric: Metric,
}

/// The probability in one cell of a column.
fn probability(column: &Column, bucket: usize) -> f64 {
    match column.values.get(bucket) {
        Some(value) if column.weight_seconds > 0 => *value as f64 / column.weight_seconds as f64,
        _ => 0.0,
    }
}

/// The hover text for one run of cells.
fn note(facet: &Facet, column: &Column, hour: usize, run: &Run, axis: &Axis, style: &Style) -> String {
    let low = axis.lower_edge(run.start);
    let high = axis.lower_edge(run.end);
    let power = describe_power(
        style.metric,
        run,
        &axis.buckets,
        &format_watts(low),
        &format_watts(high),
        &format_watts(high + axis.step),
    );
    let highest = probability(column, run.start);
    let lowest = probability(column, run.end);
    let close = (highest - lowest).abs() < 5e-4;
    let chance = describe_chance(close, &format_percent(lowest), &format_percent(highest));
    run_title(&facet.label, hour, &power, &chance)
}

/// The lowest bucket that is drawn.
fn first_bucket(axis: &Axis, style: &Style) -> usize {
    SvgOptions { levels: style.levels, metric: style.metric }.first_bucket(&axis.buckets)
}

/// The runs of cells of one hour, placed on the plot.
fn column_marks(facet: &Facet, hour: usize, axis: &Axis, style: &Style) -> Vec<RunMark> {
    let Some(column) = facet.columns.get(hour) else {
        return Vec::new();
    };
    let first = first_bucket(axis, style);
    let cell_height = PLOT_HEIGHT / (axis.buckets.len() - first) as f64;
    let levels: Vec<Option<usize>> = (0..column.values.len())
        .map(|bucket| {
            let chance = probability(column, bucket);
            level(chance, style.levels, style.gamma, style.min_probability)
        })
        .collect();
    let found = runs(&levels, first);
    let placed = found
        .iter()
        .map(|run| {
            let y = MARGIN_TOP + PLOT_HEIGHT - (run.end + 1 - first) as f64 * cell_height;
            let height = (run.end - run.start + 1) as f64 * cell_height;
            let note = note(facet, column, hour, run, axis, style);
            (format!("{y:.2}"), format!("{height:.2}"), note)
        })
        .collect();
    mark_runs(&found, placed)
}

/// Everything about one facet that rests on measured numbers.
fn drawing(facet: &Facet, axis: &Axis, style: &Style) -> FacetDrawing {
    let bottom = axis.lower_edge(first_bucket(axis, style));
    let top = axis.top_watts();
    let span = (top - bottom).max(f64::MIN_POSITIVE);
    let gridlines = axis_ticks(bottom, top);
    let ticks = gridlines
        .iter()
        .map(|tick| {
            let y = MARGIN_TOP + PLOT_HEIGHT - ((tick - bottom) / span) * PLOT_HEIGHT;
            Tick {
                y: format!("{y:.1}"),
                label_y: format!("{:.1}", y + 4.0),
                label: format_watts(*tick),
            }
        })
        .collect();
    let marks = (0..HOURS_PER_DAY).map(|hour| column_marks(facet, hour, axis, style)).collect();
    let rows = gridlines
        .iter()
        .map(|threshold| {
            let bucket = axis.buckets.index(axis.steps(*threshold));
            let share = |hour: usize| {
                let column = facet.columns.get(hour);
                format_percent(column.map_or(0.0, |column| probability(column, bucket)))
            };
            TableRow {
                power: format_watts(*threshold),
                shares: (0..HOURS_PER_DAY).map(share).collect(),
            }
        })
        .collect();
    FacetDrawing { ticks, marks, rows }
}

/// The numbers that stand around the plots.
fn page_figures(axis: &Axis, style: &Style) -> PageFigures {
    PageFigures {
        step: format_watts(axis.step),
        top: format_watts(axis.top_watts()),
        edges: level_edges(style.levels, style.gamma).into_iter().map(format_percent).collect(),
        whole: format_percent(1.0),
        blank_below: format_percent(style.min_probability),
    }
}

/// Everything the loader needs to know.
#[derive(Debug)]
struct LoadOptions<'a> {
    entity: &'a str,
    source: SourceKind,
    value: ValueColumn,
    from: Option<i64>,
    to: Option<i64>,
    max_gap: i64,
    scale: Option<f64>,
    clamp_negative: bool,
}

/// Samples and the factor that turned the recorded numbers into watts.
#[derive(Debug)]
struct Loaded {
    found: LoadedSamples<f64>,
    scale: f64,
}

/// Does a table (or view) exist?
fn table_exists(conn: &Connection, name: &str) -> Result<bool> {
    let count: i64 = conn
        .query_row(
            "SELECT COUNT(*) FROM sqlite_master WHERE type IN ('table', 'view') AND name = ?1",
            [name],
            |row| row.get(0),
        )
        .with_context(|| format!("failed to look up table {name}"))?;
    Ok(count > 0)
}

/// Column names of a table, lower-cased.
fn columns_of(conn: &Connection, table: &str) -> Result<Vec<String>> {
    let mut stmt = conn
        .prepare(&table_info_query(table))
        .with_context(|| format!("failed to inspect table {table}"))?;
    let names = stmt
        .query_map([], |row| row.get::<_, String>(1))?
        .collect::<rusqlite::Result<Vec<String>>>()?;
    Ok(column_names(&names))
}

/// What a database holds where a time is expected.
fn stored(value: &Value) -> Stored {
    match value {
        Value::Null => Stored::Null,
        Value::Integer(number) => Stored::Integer(*number),
        Value::Real(number) => {
            Stored::Real(if number.is_finite() { Some(number.floor() as i64) } else { None })
        }
        Value::Text(text) => Stored::Text(text.clone()),
        Value::Blob(_) => Stored::Blob,
    }
}

/// A stored reading, whatever type the column happens to hold; floating point.
fn value_to_f64(value: &Value) -> Option<f64> {
    match value {
        Value::Integer(number) => Some(*number as f64),
        Value::Real(number) => Some(*number),
        Value::Text(text) => text.trim().parse::<f64>().ok(),
        Value::Null | Value::Blob(_) => None,
    }
    .filter(|number| number.is_finite())
}

/// The unit scale and the negative-reading policy applied to a reading; floating point.
fn scale_watts(value: f64, scale: f64, clamp_negative: bool) -> f64 {
    let scaled = value * scale;
    if clamp_negative {
        scaled.max(0.0)
    } else {
        scaled
    }
}

/// The factor that turns recorded numbers into watts; floating point.
fn scale_factor(explicit: Option<f64>, unit: Option<&str>) -> f64 {
    match (resolve_scale(explicit.is_some(), unit), explicit) {
        (WattScale::Explicit, Some(factor)) => factor,
        (WattScale::Explicit, None) => 1.0,
        (WattScale::Thousandths(thousandths), _) => thousandths as f64 / 1_000.0,
    }
}

/// Resolve a `statistic_id` (e.g. `sensor.solar_power`) to its metadata row.
fn find_statistic(conn: &Connection, statistic_id: &str) -> Result<Option<StatisticMeta>> {
    if !table_exists(conn, "statistics_meta")? {
        return Err(Error::msg("this database has no `statistics_meta` table"));
    }
    let sql = statistic_query(&columns_of(conn, "statistics_meta")?);
    let mut stmt = conn.prepare(sql)?;
    let mut rows = stmt.query_map([statistic_id], read_meta)?;
    match rows.next() {
        Some(meta) => Ok(Some(meta?)),
        None => Ok(None),
    }
}

fn read_meta(row: &rusqlite::Row<'_>) -> rusqlite::Result<StatisticMeta> {
    Ok(StatisticMeta { metadata_id: row.get(0)?, statistic_id: row.get(1)?, unit: row.get(2)? })
}

/// Resolve an `entity_id` to the `states_meta` row id used by modern schemas.
fn find_state_metadata_id(conn: &Connection, entity_id: &str) -> Result<Option<i64>> {
    if !table_exists(conn, "states_meta")? {
        return Ok(None);
    }
    let mut stmt = conn.prepare("SELECT metadata_id FROM states_meta WHERE entity_id = ?1")?;
    let mut rows = stmt.query_map([entity_id], |row| row.get::<_, i64>(0))?;
    match rows.next() {
        Some(id) => Ok(Some(id?)),
        None => Ok(None),
    }
}

/// Ids similar to `needle`, to put in an error message when nothing matched.
fn suggest_ids(conn: &Connection, table: &str, column: &str, needle: &str) -> Vec<String> {
    let sql = suggestion_query(table, column);
    for pattern in suggestion_patterns(needle) {
        let Ok(mut stmt) = conn.prepare(&sql) else {
            return Vec::new();
        };
        let Ok(rows) = stmt.query_map([anywhere(&pattern)], |row| row.get::<_, String>(0)) else {
            return Vec::new();
        };
        let matches: Vec<String> = rows.flatten().collect();
        if !matches.is_empty() {
            return matches;
        }
    }
    Vec::new()
}

/// How many rows a statistic has in a table.
fn row_count(conn: &Connection, table: StatisticsTable, metadata_id: i64) -> Result<i64> {
    conn.query_row(&row_count_query(table), [metadata_id], |row| row.get(0))
        .with_context(|| format!("failed to count rows in {}", table.table_name()))
}

/// How raw states are stored here.
fn states_layout_of(conn: &Connection) -> Result<StatesLayout> {
    let exists = table_exists(conn, "states")?;
    let columns = columns_of(conn, "states")?;
    let meta_exists = table_exists(conn, "states_meta")?;
    states_layout(exists, &columns, meta_exists).map_err(|error| Error::msg(error.message()))
}

/// Whether raw states know an entity.
fn entity_exists(conn: &Connection, entity: &str) -> Result<bool> {
    match states_layout_of(conn) {
        Ok(StatesLayout::MetadataId { .. }) => Ok(find_state_metadata_id(conn, entity)?.is_some()),
        Ok(StatesLayout::InlineEntityId { .. }) => {
            let count: i64 = conn.query_row(
                "SELECT COUNT(*) FROM states WHERE entity_id = ?1",
                [entity],
                |row| row.get(0),
            )?;
            Ok(count > 0)
        }
        Err(_) => Ok(false),
    }
}

/// Find the table that holds the most history of an entity.
fn choose_source(conn: &Connection, entity: &str) -> Result<SourceKind> {
    let mut facts = AutoFacts::unknown();
    let mut metadata_id = 0;
    loop {
        let question = match resolve_auto(&facts) {
            AutoStep::Read(source) => return Ok(source),
            AutoStep::Nothing => return Err(Error::msg(nothing_to_read())),
            AutoStep::Ask(question) => question,
        };
        match question {
            AutoQuestion::HasStatisticsMeta => {
                facts.statistics_meta = Some(table_exists(conn, "statistics_meta")?);
            }
            AutoQuestion::IsStatistic => {
                let meta = find_statistic(conn, entity)?;
                facts.statistic = Some(meta.is_some());
                metadata_id = meta.map_or(0, |meta| meta.metadata_id);
            }
            AutoQuestion::HasLongTerm => {
                facts.long_term = Some(table_exists(conn, "statistics")?);
            }
            AutoQuestion::CountLongTerm => {
                let rows = row_count(conn, StatisticsTable::LongTerm, metadata_id)?;
                facts.long_term_rows = Some(rows);
            }
            AutoQuestion::HasShortTerm => {
                facts.short_term = Some(table_exists(conn, "statistics_short_term")?);
            }
            AutoQuestion::CountShortTerm => {
                let rows = row_count(conn, StatisticsTable::ShortTerm, metadata_id)?;
                facts.short_term_rows = Some(rows);
            }
            AutoQuestion::HasStates => {
                facts.states = Some(table_exists(conn, "states")?);
            }
            AutoQuestion::IsInStates => {
                facts.in_states = Some(entity_exists(conn, entity)?);
            }
        }
    }
}

/// Load samples from the table asked for, or from the one with the most history.
fn load(conn: &Connection, options: &LoadOptions<'_>) -> Result<Loaded> {
    let source = match options.source {
        SourceKind::Auto => choose_source(conn, options.entity)?,
        explicit => explicit,
    };
    match source.statistics_table() {
        Some(table) => load_statistics(conn, options, source, table),
        None => load_states(conn, options, source),
    }
}

/// Load statistics rows as time-weighted samples.
fn load_statistics(
    conn: &Connection,
    options: &LoadOptions<'_>,
    source: SourceKind,
    table: StatisticsTable,
) -> Result<Loaded> {
    let exists = table_exists(conn, table.table_name())?;
    let columns = columns_of(conn, table.table_name())?;
    let time = statistics_layout(exists, &columns, table, options.value)
        .map_err(|error| Error::msg(error.message()))?;
    let Some(meta) = find_statistic(conn, options.entity)? else {
        let similar = suggest_ids(conn, "statistics_meta", "statistic_id", options.entity);
        return Err(Error::msg(not_found_error("statistic", options.entity, &similar)));
    };

    let interval = table.interval_seconds();
    assert!(
        options.from.is_none_or(|from| from.checked_sub(interval).is_some()),
        "the window starts too early"
    );
    let (sql, params) =
        rows_query(time, table, options.value, meta.metadata_id, options.from, options.to);
    let scale = scale_factor(options.scale, meta.unit.as_deref());
    let mut stmt = conn.prepare(&sql)?;
    let rows = stmt
        .query_map(rusqlite::params_from_iter(params), |row| {
            let start = value_to_timestamp(&stored(&row.get::<_, Value>(0)?));
            let watts = value_to_f64(&row.get::<_, Value>(1)?)
                .map(|value| scale_watts(value, scale, options.clamp_negative));
            Ok((start, watts))
        })?
        .collect::<rusqlite::Result<Vec<(Option<i64>, Option<f64>)>>>()?;
    assert!(
        rows.iter().all(|row| row.0.is_none_or(|start| start.checked_add(interval).is_some())),
        "a row starts too late"
    );
    let samples = samples_from_rows(&rows, table, options.from, options.to);
    Ok(Loaded { found: LoadedSamples::describe(samples, source, meta.unit, rows.len()), scale })
}

/// Load raw states as time-weighted samples.
fn load_states(
    conn: &Connection,
    options: &LoadOptions<'_>,
    source: SourceKind,
) -> Result<Loaded> {
    let layout = states_layout_of(conn)?;
    let key = match layout {
        StatesLayout::MetadataId { .. } => match find_state_metadata_id(conn, options.entity)? {
            Some(metadata_id) => Value::Integer(metadata_id),
            None => {
                let similar = suggest_ids(conn, "states_meta", "entity_id", options.entity);
                return Err(Error::msg(not_found_error("entity", options.entity, &similar)));
            }
        },
        StatesLayout::InlineEntityId { .. } => Value::Text(options.entity.to_string()),
    };
    let scale = options.scale.unwrap_or(1.0);
    let mut stmt = conn.prepare(&states_query(layout))?;
    let rows = stmt
        .query_map([key], |row| {
            let ts = value_to_timestamp(&stored(&row.get::<_, Value>(0)?));
            let watts = value_to_f64(&row.get::<_, Value>(1)?)
                .map(|value| scale_watts(value, scale, options.clamp_negative));
            Ok((ts, watts))
        })?
        .collect::<rusqlite::Result<Vec<(Option<i64>, Option<f64>)>>>()?;
    let samples: Vec<Sample<f64>> =
        samples_within(&readings_from_rows(&rows), options.max_gap, options.from, options.to);
    Ok(Loaded { found: LoadedSamples::describe(samples, source, None, rows.len()), scale })
}

/// Create the recorder tables in an empty database.
fn create_schema(conn: &Connection, flavour: Flavour) {
    conn.execute_batch(flavour.schema()).expect("test schema is valid SQL");
}

/// Register a measurement statistic (hourly means) and return its `metadata_id`.
fn insert_statistic_meta(conn: &Connection, statistic_id: &str, unit: Option<&str>) -> i64 {
    insert_statistic_meta_with_flags(conn, statistic_id, unit, true, false)
}

/// Register a statistic with explicit `has_mean` / `has_sum` flags, which are allowed to
/// disagree with the rows.
fn insert_statistic_meta_with_flags(
    conn: &Connection,
    statistic_id: &str,
    unit: Option<&str>,
    has_mean: bool,
    has_sum: bool,
) -> i64 {
    conn.execute(
        "INSERT INTO statistics_meta (statistic_id, source, unit_of_measurement, has_mean, has_sum, name)
         VALUES (?1, 'recorder', ?2, ?3, ?4, NULL)",
        (statistic_id, unit, has_mean as i64, has_sum as i64),
    )
    .expect("insert statistics_meta");
    conn.last_insert_rowid()
}

/// Add one row to `statistics` or `statistics_short_term`.
fn insert_statistics_row(
    conn: &Connection,
    flavour: Flavour,
    table: &str,
    metadata_id: i64,
    start_ts: i64,
    mean: Option<f64>,
) {
    let (min, max) = (mean.map(|value| value * 0.5), mean.map(|value| value * 1.5));
    match flavour {
        Flavour::Modern => conn.execute(
            &format!(
                "INSERT INTO {table} (created_ts, metadata_id, start_ts, mean, min, max) \
                 VALUES (?1, ?2, ?3, ?4, ?5, ?6)"
            ),
            (start_ts as f64, metadata_id, start_ts as f64, mean, min, max),
        ),
        Flavour::Legacy => {
            let text = format_utc(start_ts);
            conn.execute(
                &format!(
                    "INSERT INTO {table} (created, metadata_id, start, mean, min, max) \
                     VALUES (?1, ?2, ?3, ?4, ?5, ?6)"
                ),
                (&text, metadata_id, &text, mean, min, max),
            )
        }
    }
    .expect("insert statistics row");
}

/// A uniform number in `[0, 1)`; floating point.
fn next_unit(rng: &mut Lcg) -> f64 {
    f64::from(rng.next_u32()) / 2_147_483_648.0
}

/// Watts a 8 kWp south-facing array might plausibly produce at a UTC instant, with a
/// day/night cycle, a seasonal envelope and cloudy days mixed in; floating point.
fn synthetic_watts(ts: i64, rng: &mut Lcg, cloud_factor: f64) -> f64 {
    const SECONDS_PER_DAY: f64 = 86_400.0;
    let day_of_year = (ts as f64 / SECONDS_PER_DAY) % 365.25;
    let hour = (ts as f64 % SECONDS_PER_DAY) / 3_600.0;

    // Seasonal peak output: ~7.5 kW at midsummer, ~1.8 kW at midwinter.
    let season = ((day_of_year - 172.0) / 365.25 * std::f64::consts::TAU).cos();
    let peak = 4_650.0 + 2_850.0 * season;
    // Daylight window, wider in summer than in winter.
    let half_day = 4.0 + 2.5 * season;
    let solar_noon = 12.0;
    let from_noon = (hour - solar_noon).abs();
    if from_noon >= half_day {
        return 0.0;
    }
    let shape = (from_noon / half_day * std::f64::consts::FRAC_PI_2).cos();
    let jitter = 0.9 + 0.2 * next_unit(rng);
    (peak * shape * shape * cloud_factor * jitter).max(0.0)
}

/// How much of the sun a day lets through, roughly one day in three being overcast;
/// floating point.
fn cloud_factor(rng: &mut Lcg) -> f64 {
    if next_unit(rng) < 0.34 {
        0.15 + 0.35 * next_unit(rng)
    } else {
        0.85 + 0.15 * next_unit(rng)
    }
}

/// The mean over an hour, the way hourly statistics average it; floating point.
fn hourly_mean(start: i64, rng: &mut Lcg, cloud_factor: f64) -> f64 {
    (0..6).map(|slot| synthetic_watts(start + slot * 600, rng, cloud_factor)).sum::<f64>() / 6.0
}

/// Fill `conn` with hourly long-term statistics covering `days` days of a synthetic solar
/// year starting at `start_ts`, the recorder being down for the days the outage plan names,
/// and return the entity's `metadata_id`.
fn insert_synthetic_history(
    conn: &Connection,
    start_ts: i64,
    days: i64,
    seed: u64,
    outages: &Outages,
) -> i64 {
    let metadata_id = insert_statistic_meta(conn, ENTITY, Some("W"));
    let mut rng = Lcg::new(seed);
    conn.execute_batch("BEGIN").expect("begin transaction");
    for day in 0..days {
        let cloud_factor = cloud_factor(&mut rng);
        if !outages.covers(day) {
            continue;
        }
        for hour in 0..24 {
            if !outages.covers_hour(hour) {
                continue;
            }
            let start = start_ts + day * 86_400 + hour * 3_600;
            let mean = hourly_mean(start, &mut rng, cloud_factor);
            insert_statistics_row(
                conn,
                Flavour::Modern,
                "statistics",
                metadata_id,
                start,
                Some(mean),
            );
        }
    }
    conn.execute_batch("COMMIT").expect("commit transaction");
    metadata_id
}

fn insert_states_meta(conn: &Connection, entity_id: &str) -> i64 {
    conn.execute("INSERT INTO states_meta (entity_id) VALUES (?1)", [entity_id])
        .expect("insert states_meta");
    conn.last_insert_rowid()
}

fn insert_state(
    conn: &Connection,
    flavour: Flavour,
    key: &str,
    metadata_id: i64,
    ts: i64,
    state: &str,
) {
    match flavour {
        Flavour::Modern => conn.execute(
            "INSERT INTO states (metadata_id, state, last_updated_ts, last_changed_ts)
             VALUES (?1, ?2, ?3, ?3)",
            (metadata_id, state, ts as f64),
        ),
        Flavour::Legacy => conn.execute(
            "INSERT INTO states (entity_id, state, last_updated, last_changed)
             VALUES (?1, ?2, ?3, ?3)",
            (key, state, format_utc(ts)),
        ),
    }
    .expect("insert state");
}

fn synthetic_history_database(start: &str, days: i64, seed: u64, outages: &Outages) -> Connection {
    let conn = Connection::open_in_memory().expect("open in-memory database");
    create_schema(&conn, Flavour::Modern);
    insert_synthetic_history(&conn, ts(start), days, seed, outages);
    conn
}

fn synthetic_year_database(start: &str, days: i64, seed: u64) -> Connection {
    synthetic_history_database(start, days, seed, &Outages::none())
}

fn berlin() -> Zone {
    Zone::named("Europe/Berlin").expect("a known zone")
}

fn options(entity: &str) -> LoadOptions<'_> {
    LoadOptions {
        entity,
        source: SourceKind::Auto,
        value: ValueColumn::Mean,
        from: None,
        to: None,
        max_gap: 900,
        scale: None,
        clamp_negative: true,
    }
}

fn samples_of(conn: &Connection, options: &LoadOptions<'_>) -> Result<LoadedSamples<f64>> {
    load(conn, options).map(|loaded| loaded.found)
}

/// The axis that a quantile of the readings suggests.
fn suggest_max_watts(samples: &[Sample<f64>], step: f64, quantile: f64) -> f64 {
    let ranked: Vec<Sample<Option<i64>>> = samples
        .iter()
        .map(|sample| {
            let rank = if sample.watts > 0.0 { Some(sample.watts.to_bits() as i64) } else { None };
            Sample::new(sample.start_ts, sample.end_ts, rank)
        })
        .collect();
    let target = (ranked_seconds(&ranked) as f64 * quantile).ceil() as u64;
    match aggregate::suggest_max_watts(&ranked, target) {
        None => step,
        Some(rank) => (f64::from_bits(rank as u64) / step).ceil().max(1.0) * step,
    }
}

/// The probability in one cell.
fn share(facet: &Facet, hour: usize, bucket: usize) -> f64 {
    facet.value(hour, bucket) as f64 / facet.columns[hour].weight_seconds as f64
}

fn draw(analysis: &Analysis, options: &PageOptions) -> String {
    let axis = Axis { step: 50.0, buckets: analysis.buckets };
    let style = Style {
        levels: options.levels,
        gamma: 0.6,
        min_probability: 0.005,
        metric: analysis.metric,
    };
    let drawings: Vec<FacetDrawing> =
        analysis.facets.iter().map(|facet| drawing(facet, &axis, &style)).collect();
    page(analysis, options, &page_figures(&axis, &style), &drawings, "0.1.0")
}

/// Two years of hourly statistics for a synthetic 8 kWp array.
fn database() -> Connection {
    synthetic_year_database("2023-01-01 00:00:00", 730, 0xC0FFEE)
}

/// Days of the calendar each facet could have covered, given what the data spans.
fn possible_days(loaded: &LoadedSamples<f64>, grouping: Grouping) -> Vec<u32> {
    match (loaded.first_ts, loaded.last_ts) {
        (Some(first), Some(last)) => {
            possible_days_per_facet(first, last.saturating_sub(1).max(first), &berlin(), grouping)
        }
        _ => Vec::new(),
    }
}

fn run(conn: &Connection, grouping: Grouping, metric: Metric) -> (LoadedSamples<f64>, Analysis) {
    let loaded = samples_of(conn, &options(ENTITY)).expect("samples load");
    let max_watts = suggest_max_watts(&loaded.samples, 50.0, 0.999);
    let axis = Axis::new(50.0, max_watts).expect("bucket axis");
    let grid = build_grid(&axis.place(&loaded.samples), grouping, axis.buckets, &berlin());
    let analysis = analyse(&grid, metric, 3, &possible_days(&loaded, grouping));
    (loaded, analysis)
}

#[test]
fn two_years_of_statistics_produce_twelve_monthly_facets() {
    let conn = database();
    let (loaded, analysis) = run(&conn, Grouping::Month, Metric::Exceedance);

    assert_eq!(loaded.source, SourceKind::Statistics);
    assert_eq!(loaded.rows, 730 * 24);
    assert_eq!(loaded.samples.len(), 730 * 24);
    assert_eq!(analysis.facets.len(), 12, "every month should carry data");

    // Every observed second is accounted for exactly once.
    let expected: f64 = loaded.observed_seconds() as f64;
    assert!(
        (analysis.total_weight_seconds as f64 - expected).abs() < 1.0,
        "weights {} did not match observed time {expected}",
        analysis.total_weight_seconds
    );
}

#[test]
fn midday_summer_power_is_far_more_likely_than_midday_winter_power() {
    let conn = database();
    let (_, analysis) = run(&conn, Grouping::Month, Metric::Exceedance);

    let june = analysis.facet(5).expect("June");
    let december = analysis.facet(11).expect("December");
    let bucket = analysis.buckets.index((2_000.0f64 / 50.0) as u64);

    let june_noon = share(june, 13, bucket);
    let december_noon = share(december, 13, bucket);
    assert!(
        june_noon > 0.3,
        "June has only a {june_noon:.3} chance of 2 kW at 13:00"
    );
    assert!(
        december_noon < june_noon / 2.0,
        "December ({december_noon:.3}) should be well below June ({june_noon:.3})"
    );
}

#[test]
fn nothing_is_available_at_night() {
    let conn = database();
    let (_, analysis) = run(&conn, Grouping::Month, Metric::Exceedance);
    let june = analysis.facet(5).expect("June");
    let bucket = analysis.buckets.index((50.0f64 / 50.0) as u64);

    for hour in [0, 1, 2, 23] {
        assert_eq!(
            share(june, hour, bucket),
            0.0,
            "June should never produce 50 W at {hour:02}:00"
        );
    }
    // ... and the zero bucket is still a certainty, because the hour was observed.
    assert_eq!(share(june, 0, 0), 1.0);
}

#[test]
fn exceedance_curves_fall_off_monotonically_everywhere() {
    let conn = database();
    let (_, analysis) = run(&conn, Grouping::Month, Metric::Exceedance);

    for facet in &analysis.facets {
        for column in &facet.columns {
            if !column.status.is_sufficient() {
                continue;
            }
            assert_eq!(
                column.values[0], column.weight_seconds,
                "{} {:02}:00",
                facet.label, column.hour
            );
            for (bucket, pair) in column.values.windows(2).enumerate() {
                assert!(
                    pair[0] >= pair[1],
                    "{} {:02}:00 rose from bucket {bucket} to {}",
                    facet.label,
                    column.hour,
                    bucket + 1
                );
            }
        }
    }
}

#[test]
fn the_week_grouping_covers_the_whole_year() {
    let conn = database();
    let (_, analysis) = run(&conn, Grouping::Week, Metric::Exceedance);
    assert!(
        analysis.facets.len() >= 52,
        "expected a facet per ISO week, got {}",
        analysis.facets.len()
    );
    assert!(
        analysis
            .facets
            .iter()
            .all(|facet| facet.label.starts_with("Week"))
    );
}

#[test]
fn end_to_end_the_report_is_a_self_contained_html_file() {
    let conn = database();
    let (loaded, analysis) = run(&conn, Grouping::Month, Metric::Exceedance);
    let html = draw(
        &analysis,
        &PageOptions {
            entity: ENTITY.to_string(),
            metadata: vec![
                ("Source".to_string(), loaded.source.to_string()),
                ("Timezone".to_string(), berlin().name().to_string()),
            ],
            ..PageOptions::default()
        },
    );

    assert!(html.starts_with("<!doctype html>"));
    assert_eq!(html.matches("class=\"facet-plot\"").count(), 12);
    assert_eq!(html.matches("<details class=\"table-view\"").count(), 12);
    assert!(html.contains("June"));
    assert!(html.contains("December"));
    assert!(html.contains(ENTITY));
    assert!(!html.contains("http://") && !html.contains("https://"));
    assert!(!html.contains("<script"));
    assert!(!html.contains("NaN"));

    // Run length encoding has to keep the page to a sane size: without it this is well
    // over a hundred thousand rectangles.
    let rects = html.matches("<rect").count();
    assert!(
        rects < 12 * 24 * 40,
        "run length encoding is not doing its job: {rects} rects"
    );
    assert!(
        html.len() < 4 * 1024 * 1024,
        "report grew to {} bytes",
        html.len()
    );

}

#[test]
fn a_date_range_narrows_the_report_to_the_months_it_covers() {
    let conn = database();
    let mut options = options(ENTITY);
    options.from = Some(ts("2023-06-01 00:00:00"));
    options.to = Some(ts("2023-07-01 00:00:00"));

    let loaded = samples_of(&conn, &options).expect("samples load");
    let axis = Axis::new(50.0, 8_000.0).unwrap();
    let grid = build_grid(&axis.place(&loaded.samples), Grouping::Month, axis.buckets, &berlin());
    let analysis = analyse(&grid, Metric::Exceedance, 3, &[]);

    // June in Berlin starts two hours before June in UTC, so May keeps a sliver.
    let months: Vec<usize> = analysis.facets.iter().map(|facet| facet.index).collect();
    assert!(months.contains(&5), "June must be present: {months:?}");
    assert!(!months.contains(&7), "August must be absent: {months:?}");
    assert!(months.len() <= 3, "expected a narrow range, got {months:?}");
}

#[test]
fn density_columns_are_a_distribution() {
    let conn = database();
    let (_, analysis) = run(&conn, Grouping::Month, Metric::Density);

    for facet in &analysis.facets {
        for column in &facet.columns {
            if !column.status.is_sufficient() {
                continue;
            }
            let total = column.values.iter().sum::<u128>() as f64 / column.weight_seconds as f64;
            assert!(
                (total - 1.0).abs() < 1e-9,
                "{} {:02}:00 summed to {total}",
                facet.label,
                column.hour
            );
        }
    }
}

#[test]
fn raw_states_and_hourly_statistics_agree_on_a_flat_day() {
    // A sensor that reports 4 kW for a whole day must give the same picture whichever
    // table it is read from.
    let conn = Connection::open_in_memory().unwrap();
    create_schema(&conn, Flavour::Modern);
    let statistic_id = insert_statistic_meta(&conn, ENTITY, Some("W"));
    let states_id = insert_states_meta(&conn, ENTITY);
    let start = ts("2024-06-21 00:00:00");

    for hour in 0..24 {
        insert_statistics_row(
            &conn,
            Flavour::Modern,
            "statistics",
            statistic_id,
            start + hour * 3_600,
            Some(4_000.0),
        );
        for slot in 0..6 {
            insert_state(
                &conn,
                Flavour::Modern,
                ENTITY,
                states_id,
                start + hour * 3_600 + slot * 600,
                "4000",
            );
        }
    }

    let axis = Axis::new(50.0, 5_000.0).unwrap();
    let analyse_source = |source| {
        let mut options = options(ENTITY);
        options.source = source;
        options.to = Some(start + 24 * 3_600);
        let loaded = samples_of(&conn, &options).expect("samples load");
        let grid = build_grid(&axis.place(&loaded.samples), Grouping::Month, axis.buckets, &berlin());
        analyse(&grid, Metric::Exceedance, 1, &[])
    };

    let from_statistics = analyse_source(SourceKind::Statistics);
    let from_states = analyse_source(SourceKind::States);
    let bucket = axis.buckets.index(axis.steps(4_000.0));

    for hour in 0..24 {
        let statistics = share(from_statistics.facet(5).unwrap(), hour, bucket);
        let states = share(from_states.facet(5).unwrap(), hour, bucket);
        assert_eq!(statistics, states, "hour {hour} disagreed");
        assert_eq!(statistics, 1.0, "4 kW was constant all day");
    }
}

// --- partial history and outages -------------------------------------------------
//
// The real database this tool is aimed at is not a tidy block of years: it is a few
// months, with the recorder down in the middle of them.

/// Five months of history (March to July), a nine day outage in June, and a scattering
/// of lost days throughout.
fn sparse_database() -> (Connection, Outages, i64) {
    let days = 150; // 1 March to late July.
    let outages = Outages {
        missing_days: (0..days).filter(|day| day % 7 == 3).collect(),
        // Day 100 of the run is 9 June.
        missing_ranges: vec![(100, 109)],
        missing_hours: Vec::new(),
    };
    let conn = synthetic_history_database("2025-03-01 00:00:00", days, 0xBEEF, &outages);
    (conn, outages, days)
}

/// These scenarios are about which days exist, so they run in UTC: the generator lays
/// its synthetic days out in UTC, and a local offset would smear each of them across two
/// calendar dates and make the day counts ambiguous. Local-time behaviour has its own
/// tests in `timeutil`.
fn sparse_analysis(conn: &Connection) -> (LoadedSamples<f64>, Analysis, Coverage) {
    let loaded = samples_of(conn, &options(ENTITY)).expect("samples load");
    let axis = Axis::new(50.0, 8_000.0).expect("bucket axis");
    let grid = build_grid(&axis.place(&loaded.samples), Grouping::Month, axis.buckets, &Zone::utc());
    let possible = match (loaded.first_ts, loaded.last_ts) {
        (Some(first), Some(last)) => possible_days_per_facet(
            first,
            last.saturating_sub(1).max(first),
            &Zone::utc(),
            Grouping::Month,
        ),
        _ => Vec::new(),
    };
    let analysis = analyse(&grid, Metric::Exceedance, 3, &possible);
    let coverage = Coverage::describe(
        &loaded.samples,
        analysis.observed_days,
        grid.days_covering_hours(20),
        &analysis
            .facets
            .iter()
            .map(|facet| facet.index)
            .collect::<Vec<_>>(),
        Grouping::Month,
        &Zone::utc(),
        24 * 3_600,
    )
    .expect("coverage");
    (loaded, analysis, coverage)
}

#[test]
fn a_partial_year_only_reports_the_months_it_has() {
    let (conn, _, _) = sparse_database();
    let (_, analysis, coverage) = sparse_analysis(&conn);

    let months: Vec<usize> = analysis.facets.iter().map(|facet| facet.index).collect();
    assert_eq!(
        months,
        vec![2, 3, 4, 5, 6],
        "March through July, nothing else"
    );
    assert!(
        coverage.missing_facets.is_empty(),
        "months outside the span were never possible: {:?}",
        coverage.missing_facets
    );
}

#[test]
fn the_outage_is_found_with_the_right_length() {
    let (conn, _, _) = sparse_database();
    let (_, _, coverage) = sparse_analysis(&conn);

    let longest = coverage.longest_gap().expect("the nine day outage");
    let days = longest.seconds() as f64 / 86_400.0;
    assert!(
        (8.5..=9.5).contains(&days),
        "expected the nine day outage, found {days:.2} days"
    );

    // The weekly single-day holes are exactly a day long, so they are reported too - and
    // nothing else is.
    for gap in &coverage.gaps {
        let length = gap.seconds() as f64 / 86_400.0;
        assert!(
            (0.9..=1.1).contains(&length) || (8.5..=9.5).contains(&length),
            "unexpected {length:.2} day gap"
        );
    }
    assert!(
        coverage.gaps.len() > 5,
        "the weekly holes should be visible too"
    );
}

#[test]
fn coverage_counts_days_rather_than_readings() {
    let (conn, outages, days) = sparse_database();
    let (_, analysis, coverage) = sparse_analysis(&conn);

    assert_eq!(
        coverage.observed_days,
        outages.covered_days(days) as u32,
        "every day the recorder was up, and no others"
    );
    assert!(coverage.observed_days < days as u32, "days were lost");
    assert_eq!(coverage.span_days, days as u32);
    assert!(
        !coverage.covers_full_year(),
        "five months is not a full year of seasons"
    );
    assert!(coverage.needs_caution());
    assert!(coverage.day_fraction().part < coverage.day_fraction().whole);

    // June lost nine days in one block plus its share of the weekly holes.
    let june = analysis.facet(5).expect("June");
    assert_eq!(june.possible_days, 30);
    assert!(
        (17..=21).contains(&june.days),
        "June should have around 19 days, found {}",
        june.days
    );
    assert!(june.days < june.possible_days);
}

#[test]
fn a_month_with_only_a_couple_of_days_is_hatched_rather_than_coloured() {
    // A history that stops two days into June.
    let conn = synthetic_history_database(
        "2025-05-01 00:00:00",
        33,
        0xFEED,
        &Outages::none(),
    );
    let (_, analysis, _) = sparse_analysis(&conn);

    let june = analysis.facet(5).expect("June");
    assert!(june.days <= 3, "only a sliver of June exists");
    let midday = &june.columns[13];
    assert_ne!(
        midday.status,
        ColumnStatus::Sufficient,
        "{} days must not be presented as a settled likelihood",
        midday.days
    );

    // May, which is complete, is drawn normally.
    let may = analysis.facet(4).expect("May");
    assert_eq!(may.columns[13].status, ColumnStatus::Sufficient);
}

#[test]
fn an_hour_the_recorder_never_covered_is_marked_as_never_recorded() {
    // An inverter that only reports between 06:00 and 20:00 local.
    let outages = Outages {
        missing_days: Vec::new(),
        missing_ranges: Vec::new(),
        missing_hours: (0..24).filter(|hour| !(5..19).contains(hour)).collect(),
    };
    let conn = synthetic_history_database("2025-05-01 00:00:00", 60, 0xCAFE, &outages);
    let (_, analysis, _) = sparse_analysis(&conn);

    let may = analysis.facet(4).expect("May");
    assert_eq!(
        may.columns[3].status,
        ColumnStatus::Empty,
        "03:00 was never recorded"
    );
    assert_eq!(may.columns[3].days, 0);
    assert_eq!(may.columns[13].status, ColumnStatus::Sufficient);
}

#[test]
fn the_report_tells_the_reader_what_is_missing() {
    let (conn, _, _) = sparse_database();
    let (loaded, analysis, coverage) = sparse_analysis(&conn);
    let (_, _, again) = sparse_analysis(&conn);
    let figures = CoverageFigures {
        day_share: "80%".to_string(),
        threshold: "24 h".to_string(),
        missing: "28 d".to_string(),
        longest: "9 d".to_string(),
    };
    let html = draw(
        &analysis,
        &PageOptions {
            entity: ENTITY.to_string(),
            metadata: vec![("Source".to_string(), loaded.source.to_string())],
            coverage: Some((again, figures)),
            tz: berlin(),
            ..PageOptions::default()
        },
    );

    assert!(html.contains("History"), "the coverage block is present");
    assert!(html.contains(&format!("{} of them", coverage.observed_days)));
    assert!(html.contains("outage"), "the outage is named");
    assert!(
        html.contains("Less than a year of history"),
        "the partial-history caution is shown"
    );
    assert!(html.contains("conditional on the time that was actually recorded"));
    // One coverage strip cell per hour of every facet.
    assert_eq!(
        html.matches("<rect class=\"cov").count(),
        analysis.facets.len() * 24
    );
    assert!(
        html.contains("days recorded per hour"),
        "the strip is explained"
    );
}

#[test]
fn hourly_statistics_and_chatty_raw_states_agree_on_how_many_days_they_saw() {
    // The same three days, recorded twice: once as 24 hourly statistics rows a day, once
    // as a state every two minutes. A reading count would call the second one 30 times
    // better evidenced; a day count knows they are the same three days.
    let conn = Connection::open_in_memory().unwrap();
    create_schema(&conn, Flavour::Modern);
    let statistic_id = insert_statistic_meta(&conn, ENTITY, Some("W"));
    let states_id = insert_states_meta(&conn, ENTITY);
    let start = ts("2025-06-02 00:00:00");

    for day in 0..3 {
        for hour in 0..24 {
            let hour_start = start + day * 86_400 + hour * 3_600;
            insert_statistics_row(
                &conn,
                Flavour::Modern,
                "statistics",
                statistic_id,
                hour_start,
                Some(2_000.0),
            );
            for slot in 0..30 {
                insert_state(
                    &conn,
                    Flavour::Modern,
                    ENTITY,
                    states_id,
                    hour_start + slot * 120,
                    "2000",
                );
            }
        }
    }

    let axis = Axis::new(50.0, 4_000.0).unwrap();
    let day_counts = |source| {
        let mut options = options(ENTITY);
        options.source = source;
        options.to = Some(start + 3 * 86_400);
        let loaded = samples_of(&conn, &options).expect("samples load");
        let grid = build_grid(&axis.place(&loaded.samples), Grouping::Month, axis.buckets, &Zone::utc());
        let analysis = analyse(&grid, Metric::Exceedance, 3, &[]);
        let facet = analysis.facet(5).expect("June").clone();
        (loaded.samples.len(), facet)
    };

    let (statistics_samples, from_statistics) = day_counts(SourceKind::Statistics);
    let (states_samples, from_states) = day_counts(SourceKind::States);

    assert!(
        states_samples > statistics_samples * 20,
        "the raw states really are far chattier ({states_samples} vs {statistics_samples})"
    );
    assert_eq!(from_statistics.days, 3);
    assert_eq!(from_states.days, 3, "the same three days, however chatty");
    for hour in 0..24 {
        assert_eq!(
            from_statistics.columns[hour].days, from_states.columns[hour].days,
            "hour {hour} disagreed on days"
        );
        assert_eq!(
            from_statistics.columns[hour].status, from_states.columns[hour].status,
            "hour {hour} disagreed on status"
        );
    }
}
