use anyhow::{Context, Error, Result};
use pv_probability::model::Sample;
use pv_probability::source::catalog;
use pv_probability::source::catalog::{
    closest_power_sensors, date_range, format_candidates, format_listing, Candidate, RowSummary,
    StatisticKind,
};
use pv_probability::source::schema::{
    anywhere, column_names, not_found_error, pick_time_column, states_layout, statistic_query,
    statistics_layout, suggestion_patterns, suggestion_query, table_info_query,
    unit_scale_to_watts, value_to_timestamp, LayoutError, StatesLayout, StatisticMeta,
    StatisticsTable, Stored, TimeColumn, ValueColumn,
};
use pv_probability::source::states::{
    readings_from_rows, samples_from_readings, samples_within, states_query,
};
use pv_probability::source::statistics::{
    resolve_scale, row_count_query, rows_query, samples_from_rows, time_column, WattScale,
};
use pv_probability::source::testdb::{all_ts, format_utc, ts, Flavour, Lcg, Outages, ENTITY};
use pv_probability::source::{
    explain_no_samples, find_candidate, nothing_to_read, resolve_auto, AutoFacts, AutoQuestion,
    AutoStep, LoadedSamples, SourceKind,
};
use pv_probability::timeutil::{parse_ha_datetime, Zone, FIRST_INSTANT, LAST_INSTANT};
use rusqlite::types::Value;
use rusqlite::Connection;

/// Everything the loader needs to know.
#[derive(Debug)]
struct LoadOptions<'a> {
    entity: &'a str,
    source: SourceKind,
    value: ValueColumn,
    from: Option<i64>,
    to: Option<i64>,
    max_gap: i64,
    scale: Option<f64>,
    clamp_negative: bool,
}

/// Samples and the factor that turned the recorded numbers into watts.
#[derive(Debug)]
struct Loaded {
    found: LoadedSamples<f64>,
    scale: f64,
}

/// Does a table (or view) exist?
fn table_exists(conn: &Connection, name: &str) -> Result<bool> {
    let count: i64 = conn
        .query_row(
            "SELECT COUNT(*) FROM sqlite_master WHERE type IN ('table', 'view') AND name = ?1",
            [name],
            |row| row.get(0),
        )
        .with_context(|| format!("failed to look up table {name}"))?;
    Ok(count > 0)
}

/// Column names of a table, lower-cased.
fn columns_of(conn: &Connection, table: &str) -> Result<Vec<String>> {
    let mut stmt = conn
        .prepare(&table_info_query(table))
        .with_context(|| format!("failed to inspect table {table}"))?;
    let names = stmt
        .query_map([], |row| row.get::<_, String>(1))?
        .collect::<rusqlite::Result<Vec<String>>>()?;
    Ok(column_names(&names))
}

/// What a database holds where a time is expected.
fn stored(value: &Value) -> Stored {
    match value {
        Value::Null => Stored::Null,
        Value::Integer(number) => Stored::Integer(*number),
        Value::Real(number) => {
            Stored::Real(if number.is_finite() { Some(number.floor() as i64) } else { None })
        }
        Value::Text(text) => Stored::Text(text.clone()),
        Value::Blob(_) => Stored::Blob,
    }
}

/// A stored reading, whatever type the column happens to hold; floating point.
fn value_to_f64(value: &Value) -> Option<f64> {
    match value {
        Value::Integer(number) => Some(*number as f64),
        Value::Real(number) => Some(*number),
        Value::Text(text) => text.trim().parse::<f64>().ok(),
        Value::Null | Value::Blob(_) => None,
    }
    .filter(|number| number.is_finite())
}

/// The unit scale and the negative-reading policy applied to a reading; floating point.
fn scale_watts(value: f64, scale: f64, clamp_negative: bool) -> f64 {
    let scaled = value * scale;
    if clamp_negative {
        scaled.max(0.0)
    } else {
        scaled
    }
}

/// The factor that turns recorded numbers into watts; floating point.
fn scale_factor(explicit: Option<f64>, unit: Option<&str>) -> f64 {
    match (resolve_scale(explicit.is_some(), unit), explicit) {
        (WattScale::Explicit, Some(factor)) => factor,
        (WattScale::Explicit, None) => 1.0,
        (WattScale::Thousandths(thousandths), _) => thousandths as f64 / 1_000.0,
    }
}

/// Resolve a `statistic_id` (e.g. `sensor.solar_power`) to its metadata row.
fn find_statistic(conn: &Connection, statistic_id: &str) -> Result<Option<StatisticMeta>> {
    if !table_exists(conn, "statistics_meta")? {
        return Err(Error::msg("this database has no `statistics_meta` table"));
    }
    let sql = statistic_query(&columns_of(conn, "statistics_meta")?);
    let mut stmt = conn.prepare(sql)?;
    let mut rows = stmt.query_map([statistic_id], read_meta)?;
    match rows.next() {
        Some(meta) => Ok(Some(meta?)),
        None => Ok(None),
    }
}

fn read_meta(row: &rusqlite::Row<'_>) -> rusqlite::Result<StatisticMeta> {
    Ok(StatisticMeta { metadata_id: row.get(0)?, statistic_id: row.get(1)?, unit: row.get(2)? })
}

/// Resolve an `entity_id` to the `states_meta` row id used by modern schemas.
fn find_state_metadata_id(conn: &Connection, entity_id: &str) -> Result<Option<i64>> {
    if !table_exists(conn, "states_meta")? {
        return Ok(None);
    }
    let mut stmt = conn.prepare("SELECT metadata_id FROM states_meta WHERE entity_id = ?1")?;
    let mut rows = stmt.query_map([entity_id], |row| row.get::<_, i64>(0))?;
    match rows.next() {
        Some(id) => Ok(Some(id?)),
        None => Ok(None),
    }
}

/// Ids similar to `needle`, to put in an error message when nothing matched.
fn suggest_ids(conn: &Connection, table: &str, column: &str, needle: &str) -> Vec<String> {
    let sql = suggestion_query(table, column);
    for pattern in suggestion_patterns(needle) {
        let Ok(mut stmt) = conn.prepare(&sql) else {
            return Vec::new();
        };
        let Ok(rows) = stmt.query_map([anywhere(&pattern)], |row| row.get::<_, String>(0)) else {
            return Vec::new();
        };
        let matches: Vec<String> = rows.flatten().collect();
        if !matches.is_empty() {
            return matches;
        }
    }
    Vec::new()
}

/// How many rows a statistic has in a table.
fn row_count(conn: &Connection, table: StatisticsTable, metadata_id: i64) -> Result<i64> {
    conn.query_row(&row_count_query(table), [metadata_id], |row| row.get(0))
        .with_context(|| format!("failed to count rows in {}", table.table_name()))
}

/// How raw states are stored here.
fn states_layout_of(conn: &Connection) -> Result<StatesLayout> {
    let exists = table_exists(conn, "states")?;
    let columns = columns_of(conn, "states")?;
    let meta_exists = table_exists(conn, "states_meta")?;
    states_layout(exists, &columns, meta_exists).map_err(|error| Error::msg(error.message()))
}

/// Whether raw states know an entity.
fn entity_exists(conn: &Connection, entity: &str) -> Result<bool> {
    match states_layout_of(conn) {
        Ok(StatesLayout::MetadataId { .. }) => Ok(find_state_metadata_id(conn, entity)?.is_some()),
        Ok(StatesLayout::InlineEntityId { .. }) => {
            let count: i64 = conn.query_row(
                "SELECT COUNT(*) FROM states WHERE entity_id = ?1",
                [entity],
                |row| row.get(0),
            )?;
            Ok(count > 0)
        }
        Err(_) => Ok(false),
    }
}

/// Find the table that holds the most history of an entity.
fn choose_source(conn: &Connection, entity: &str) -> Result<SourceKind> {
    let mut facts = AutoFacts::unknown();
    let mut metadata_id = 0;
    loop {
        let question = match resolve_auto(&facts) {
            AutoStep::Read(source) => return Ok(source),
            AutoStep::Nothing => return Err(Error::msg(nothing_to_read())),
            AutoStep::Ask(question) => question,
        };
        match question {
            AutoQuestion::HasStatisticsMeta => {
                facts.statistics_meta = Some(table_exists(conn, "statistics_meta")?);
            }
            AutoQuestion::IsStatistic => {
                let meta = find_statistic(conn, entity)?;
                facts.statistic = Some(meta.is_some());
                metadata_id = meta.map_or(0, |meta| meta.metadata_id);
            }
            AutoQuestion::HasLongTerm => {
                facts.long_term = Some(table_exists(conn, "statistics")?);
            }
            AutoQuestion::CountLongTerm => {
                let rows = row_count(conn, StatisticsTable::LongTerm, metadata_id)?;
                facts.long_term_rows = Some(rows);
            }
            AutoQuestion::HasShortTerm => {
                facts.short_term = Some(table_exists(conn, "statistics_short_term")?);
            }
            AutoQuestion::CountShortTerm => {
                let rows = row_count(conn, StatisticsTable::ShortTerm, metadata_id)?;
                facts.short_term_rows = Some(rows);
            }
            AutoQuestion::HasStates => {
                facts.states = Some(table_exists(conn, "states")?);
            }
            AutoQuestion::IsInStates => {
                facts.in_states = Some(entity_exists(conn, entity)?);
            }
        }
    }
}

/// Load samples from the table asked for, or from the one with the most history.
fn load_samples(conn: &Connection, options: &LoadOptions<'_>) -> Result<Loaded> {
    let source = match options.source {
        SourceKind::Auto => choose_source(conn, options.entity)?,
        explicit => explicit,
    };
    match source.statistics_table() {
        Some(table) => load_statistics(conn, options, source, table),
        None => load_states(conn, options, source),
    }
}

/// Load statistics rows as time-weighted samples.
fn load_statistics(
    conn: &Connection,
    options: &LoadOptions<'_>,
    source: SourceKind,
    table: StatisticsTable,
) -> Result<Loaded> {
    let exists = table_exists(conn, table.table_name())?;
    let columns = columns_of(conn, table.table_name())?;
    let time = statistics_layout(exists, &columns, table, options.value)
        .map_err(|error| Error::msg(error.message()))?;
    let Some(meta) = find_statistic(conn, options.entity)? else {
        let similar = suggest_ids(conn, "statistics_meta", "statistic_id", options.entity);
        return Err(Error::msg(not_found_error("statistic", options.entity, &similar)));
    };

    let interval = table.interval_seconds();
    assert!(
        options.from.is_none_or(|from| from.checked_sub(interval).is_some()),
        "the window starts too early"
    );
    let (sql, params) =
        rows_query(time, table, options.value, meta.metadata_id, options.from, options.to);
    let scale = scale_factor(options.scale, meta.unit.as_deref());
    let mut stmt = conn.prepare(&sql)?;
    let rows = stmt
        .query_map(rusqlite::params_from_iter(params), |row| {
            let start = value_to_timestamp(&stored(&row.get::<_, Value>(0)?));
            let watts = value_to_f64(&row.get::<_, Value>(1)?)
                .map(|value| scale_watts(value, scale, options.clamp_negative));
            Ok((start, watts))
        })?
        .collect::<rusqlite::Result<Vec<(Option<i64>, Option<f64>)>>>()?;
    assert!(
        rows.iter().all(|row| row.0.is_none_or(|start| start.checked_add(interval).is_some())),
        "a row starts too late"
    );
    let samples = samples_from_rows(&rows, table, options.from, options.to);
    Ok(Loaded { found: LoadedSamples::describe(samples, source, meta.unit, rows.len()), scale })
}

/// Load raw states as time-weighted samples.
fn load_states(
    conn: &Connection,
    options: &LoadOptions<'_>,
    source: SourceKind,
) -> Result<Loaded> {
    let layout = states_layout_of(conn)?;
    let key = match layout {
        StatesLayout::MetadataId { .. } => match find_state_metadata_id(conn, options.entity)? {
            Some(metadata_id) => Value::Integer(metadata_id),
            None => {
                let similar = suggest_ids(conn, "states_meta", "entity_id", options.entity);
                return Err(Error::msg(not_found_error("entity", options.entity, &similar)));
            }
        },
        StatesLayout::InlineEntityId { .. } => Value::Text(options.entity.to_string()),
    };
    let scale = options.scale.unwrap_or(1.0);
    let mut stmt = conn.prepare(&states_query(layout))?;
    let rows = stmt
        .query_map([key], |row| {
            let ts = value_to_timestamp(&stored(&row.get::<_, Value>(0)?));
            let watts = value_to_f64(&row.get::<_, Value>(1)?)
                .map(|value| scale_watts(value, scale, options.clamp_negative));
            Ok((ts, watts))
        })?
        .collect::<rusqlite::Result<Vec<(Option<i64>, Option<f64>)>>>()?;
    let samples: Vec<Sample<f64>> =
        samples_within(&readings_from_rows(&rows), options.max_gap, options.from, options.to);
    Ok(Loaded { found: LoadedSamples::describe(samples, source, None, rows.len()), scale })
}

/// Every statistic in the database whose id contains `filter`, best candidates first.
fn list_statistics(conn: &Connection, filter: Option<&str>) -> Result<Vec<Candidate>> {
    if !table_exists(conn, "statistics_meta")? {
        return Ok(Vec::new());
    }
    let mut stmt =
        conn.prepare(catalog::statistics_query(&columns_of(conn, "statistics_meta")?))?;
    let metas =
        stmt.query_map([], read_meta)?.collect::<rusqlite::Result<Vec<StatisticMeta>>>()?;
    let metas = catalog::keep_matching(&metas, filter);
    let ids: Vec<i64> = metas.iter().map(|meta| meta.metadata_id).collect();
    let summaries = summarise(conn, &ids)?;
    Ok(catalog::list_statistics(&metas, &summaries))
}

/// One grouped pass over `statistics`.
fn summarise(conn: &Connection, ids: &[i64]) -> Result<Vec<(i64, RowSummary)>> {
    if ids.is_empty() || !table_exists(conn, "statistics")? {
        return Ok(Vec::new());
    }
    let mut stmt = conn.prepare(&catalog::row_summary(&columns_of(conn, "statistics")?, ids))?;
    let summaries = stmt
        .query_map([], |row| {
            let summary = RowSummary {
                rows: row.get(1)?,
                means: row.get(2)?,
                sums: row.get(3)?,
                first_ts: value_to_timestamp(&stored(&row.get(4)?)),
                last_ts: value_to_timestamp(&stored(&row.get(5)?)),
            };
            Ok((row.get::<_, i64>(0)?, summary))
        })?
        .collect::<rusqlite::Result<Vec<(i64, RowSummary)>>>()?;
    Ok(summaries)
}

/// Explain why a load that found no usable readings found none.
fn explain(
    conn: &Connection,
    options: &LoadOptions<'_>,
    source: SourceKind,
    tz: &Zone,
) -> String {
    let everything = list_statistics(conn, None).unwrap_or_default();
    let similar = list_statistics(conn, Some(options.entity)).unwrap_or_default();
    explain_no_samples(
        options.entity,
        source,
        options.value,
        options.from,
        options.to,
        find_candidate(&similar, options.entity),
        &catalog::suggest_block(&everything, options.entity, tz),
        tz,
    )
}

/// Create the recorder tables in an empty database.
fn create_schema(conn: &Connection, flavour: Flavour) {
    conn.execute_batch(flavour.schema()).expect("test schema is valid SQL");
}

/// Register a measurement statistic (hourly means) and return its `metadata_id`.
fn insert_statistic_meta(conn: &Connection, statistic_id: &str, unit: Option<&str>) -> i64 {
    insert_statistic_meta_with_flags(conn, statistic_id, unit, true, false)
}

/// Register a statistic with explicit `has_mean` / `has_sum` flags, which are allowed to
/// disagree with the rows.
fn insert_statistic_meta_with_flags(
    conn: &Connection,
    statistic_id: &str,
    unit: Option<&str>,
    has_mean: bool,
    has_sum: bool,
) -> i64 {
    conn.execute(
        "INSERT INTO statistics_meta (statistic_id, source, unit_of_measurement, has_mean, has_sum, name)
         VALUES (?1, 'recorder', ?2, ?3, ?4, NULL)",
        (statistic_id, unit, has_mean as i64, has_sum as i64),
    )
    .expect("insert statistics_meta");
    conn.last_insert_rowid()
}

/// A unix timestamp the way legacy recorder schemas stored it.
fn legacy_text(ts: i64) -> String {
    assert!((FIRST_INSTANT..=LAST_INSTANT).contains(&ts), "timestamp in range");
    format_utc(ts)
}

/// Add one row to `statistics` or `statistics_short_term`.
fn insert_statistics_row(
    conn: &Connection,
    flavour: Flavour,
    table: &str,
    metadata_id: i64,
    start_ts: i64,
    mean: Option<f64>,
) {
    let (min, max) = (mean.map(|value| value * 0.5), mean.map(|value| value * 1.5));
    match flavour {
        Flavour::Modern => conn.execute(
            &format!(
                "INSERT INTO {table} (created_ts, metadata_id, start_ts, mean, min, max) \
                 VALUES (?1, ?2, ?3, ?4, ?5, ?6)"
            ),
            (start_ts as f64, metadata_id, start_ts as f64, mean, min, max),
        ),
        Flavour::Legacy => {
            let text = legacy_text(start_ts);
            conn.execute(
                &format!(
                    "INSERT INTO {table} (created, metadata_id, start, mean, min, max) \
                     VALUES (?1, ?2, ?3, ?4, ?5, ?6)"
                ),
                (&text, metadata_id, &text, mean, min, max),
            )
        }
    }
    .expect("insert statistics row");
}

/// Add one cumulative-counter row: `sum` and `state` populated, `mean` left NULL.
fn insert_statistics_sum_row(
    conn: &Connection,
    flavour: Flavour,
    table: &str,
    metadata_id: i64,
    start_ts: i64,
    sum: f64,
) {
    match flavour {
        Flavour::Modern => conn.execute(
            &format!(
                "INSERT INTO {table} (created_ts, metadata_id, start_ts, mean, min, max, state, sum) \
                 VALUES (?1, ?2, ?3, NULL, NULL, NULL, ?4, ?4)"
            ),
            (start_ts as f64, metadata_id, start_ts as f64, sum),
        ),
        Flavour::Legacy => {
            let text = legacy_text(start_ts);
            conn.execute(
                &format!(
                    "INSERT INTO {table} (created, metadata_id, start, mean, min, max, state, sum) \
                     VALUES (?1, ?2, ?3, NULL, NULL, NULL, ?4, ?4)"
                ),
                (&text, metadata_id, &text, sum),
            )
        }
    }
    .expect("insert statistics sum row");
}

/// A uniform number in `[0, 1)`; floating point.
fn next_unit(rng: &mut Lcg) -> f64 {
    f64::from(rng.next_u32()) / 2_147_483_648.0
}

/// Watts a 8 kWp south-facing array might plausibly produce at a UTC instant, with a
/// day/night cycle, a seasonal envelope and cloudy days mixed in; floating point.
fn synthetic_watts(ts: i64, rng: &mut Lcg, cloud_factor: f64) -> f64 {
    const SECONDS_PER_DAY: f64 = 86_400.0;
    let day_of_year = (ts as f64 / SECONDS_PER_DAY) % 365.25;
    let hour = (ts as f64 % SECONDS_PER_DAY) / 3_600.0;

    // Seasonal peak output: ~7.5 kW at midsummer, ~1.8 kW at midwinter.
    let season = ((day_of_year - 172.0) / 365.25 * std::f64::consts::TAU).cos();
    let peak = 4_650.0 + 2_850.0 * season;
    // Daylight window, wider in summer than in winter.
    let half_day = 4.0 + 2.5 * season;
    let solar_noon = 12.0;
    let from_noon = (hour - solar_noon).abs();
    if from_noon >= half_day {
        return 0.0;
    }
    let shape = (from_noon / half_day * std::f64::consts::FRAC_PI_2).cos();
    let jitter = 0.9 + 0.2 * next_unit(rng);
    (peak * shape * shape * cloud_factor * jitter).max(0.0)
}

/// How much of the sun a day lets through, roughly one day in three being overcast;
/// floating point.
fn cloud_factor(rng: &mut Lcg) -> f64 {
    if next_unit(rng) < 0.34 {
        0.15 + 0.35 * next_unit(rng)
    } else {
        0.85 + 0.15 * next_unit(rng)
    }
}

/// The mean over an hour, the way hourly statistics average it; floating point.
fn hourly_mean(start: i64, rng: &mut Lcg, cloud_factor: f64) -> f64 {
    (0..6).map(|slot| synthetic_watts(start + slot * 600, rng, cloud_factor)).sum::<f64>() / 6.0
}

/// Fill `conn` with hourly long-term statistics covering `days` days of a synthetic solar
/// year starting at `start_ts`, the recorder being down for the days the outage plan names,
/// and return the entity's `metadata_id`.
fn insert_synthetic_history(
    conn: &Connection,
    start_ts: i64,
    days: i64,
    seed: u64,
    outages: &Outages,
) -> i64 {
    let metadata_id = insert_statistic_meta(conn, ENTITY, Some("W"));
    let mut rng = Lcg::new(seed);
    conn.execute_batch("BEGIN").expect("begin transaction");
    for day in 0..days {
        let cloud_factor = cloud_factor(&mut rng);
        if !outages.covers(day) {
            continue;
        }
        for hour in 0..24 {
            if !outages.covers_hour(hour) {
                continue;
            }
            let start = start_ts + day * 86_400 + hour * 3_600;
            let mean = hourly_mean(start, &mut rng, cloud_factor);
            insert_statistics_row(
                conn,
                Flavour::Modern,
                "statistics",
                metadata_id,
                start,
                Some(mean),
            );
        }
    }
    conn.execute_batch("COMMIT").expect("commit transaction");
    metadata_id
}

/// Write a cumulative energy counter (kWh) alongside a power sensor, the way a real
/// integration exposes both, and return its `metadata_id`.
fn insert_synthetic_energy_counter(
    conn: &Connection,
    statistic_id: &str,
    start_ts: i64,
    days: i64,
    seed: u64,
    outages: &Outages,
) -> i64 {
    let metadata_id =
        insert_statistic_meta_with_flags(conn, statistic_id, Some("kWh"), false, true);
    let mut rng = Lcg::new(seed);
    let mut total = 0.0;
    conn.execute_batch("BEGIN").expect("begin transaction");
    for day in 0..days {
        let cloud_factor = cloud_factor(&mut rng);
        for hour in 0..24 {
            let start = start_ts + day * 86_400 + hour * 3_600;
            // An hour at this average power adds this many kilowatt hours to the total.
            total += hourly_mean(start, &mut rng, cloud_factor) / 1_000.0;
            if outages.covers(day) {
                insert_statistics_sum_row(
                    conn,
                    Flavour::Modern,
                    "statistics",
                    metadata_id,
                    start,
                    total,
                );
            }
        }
    }
    conn.execute_batch("COMMIT").expect("commit transaction");
    metadata_id
}

fn open_memory() -> Connection {
    Connection::open_in_memory().expect("open in-memory database")
}

/// Register an entity for raw states and return its `metadata_id` (modern flavour only).
fn insert_states_meta(conn: &Connection, entity_id: &str) -> i64 {
    conn.execute("INSERT INTO states_meta (entity_id) VALUES (?1)", [entity_id])
        .expect("insert states_meta");
    conn.last_insert_rowid()
}

/// Add one row to `states`. `state` is stored verbatim, so `"unavailable"` works.
fn insert_state(
    conn: &Connection,
    flavour: Flavour,
    key: &str,
    metadata_id: i64,
    ts: i64,
    state: &str,
) {
    match flavour {
        Flavour::Modern => conn.execute(
            "INSERT INTO states (metadata_id, state, last_updated_ts, last_changed_ts)
             VALUES (?1, ?2, ?3, ?3)",
            (metadata_id, state, ts as f64),
        ),
        Flavour::Legacy => conn.execute(
            "INSERT INTO states (entity_id, state, last_updated, last_changed)
             VALUES (?1, ?2, ?3, ?3)",
            (key, state, format_utc(ts)),
        ),
    }
    .expect("insert state");
}

/// A small in-memory database in the modern schema: three hourly statistics rows, three
/// short-term rows and a handful of raw states, all for [`ENTITY`].
fn modern_database() -> Connection {
    small_database(Flavour::Modern)
}

/// The same content in the legacy schema.
fn legacy_database() -> Connection {
    small_database(Flavour::Legacy)
}

fn small_database(flavour: Flavour) -> Connection {
    let conn = open_memory();
    create_schema(&conn, flavour);
    let statistic_id = insert_statistic_meta(&conn, ENTITY, Some("W"));
    let states_id = match flavour {
        Flavour::Modern => insert_states_meta(&conn, ENTITY),
        Flavour::Legacy => 0,
    };
    // A second entity, so "did you mean" suggestions have something to find.
    insert_statistic_meta(&conn, "sensor.grid_power", Some("W"));

    let base = ts("2024-06-21 09:00:00");
    for (index, mean) in [Some(1_000.0), Some(2_000.0), None, Some(3_000.0)].into_iter().enumerate()
    {
        let index = index as i64;
        let (hour, slot) = (base + index * 3_600, base + index * 300);
        insert_statistics_row(&conn, flavour, "statistics", statistic_id, hour, mean);
        insert_statistics_row(&conn, flavour, "statistics_short_term", statistic_id, slot, mean);
    }
    for (offset, state) in
        [(0, "500"), (600, "1500"), (1_200, "unavailable"), (1_800, "2500"), (2_400, "0")]
    {
        insert_state(&conn, flavour, ENTITY, states_id, base + offset, state);
    }
    conn
}

/// A modern-schema database holding `days` days of synthetic hourly statistics.
fn synthetic_year_database(start: &str, days: i64, seed: u64) -> Connection {
    synthetic_history_database(start, days, seed, &Outages::none())
}

/// The same, with outages.
fn synthetic_history_database(start: &str, days: i64, seed: u64, outages: &Outages) -> Connection {
    let conn = open_memory();
    create_schema(&conn, Flavour::Modern);
    insert_synthetic_history(&conn, ts(start), days, seed, outages);
    conn
}

/// What a load found, flat.
struct Found {
    samples: Vec<Sample<f64>>,
    source: SourceKind,
    unit: Option<String>,
    scale: f64,
    rows: usize,
    first_ts: Option<i64>,
    last_ts: Option<i64>,
    seconds: i64,
}

impl std::fmt::Debug for Found {
    fn fmt(&self, f: &mut std::fmt::Formatter<'_>) -> std::fmt::Result {
        f.write_str("samples")
    }
}

fn load(conn: &Connection, options: &LoadOptions<'_>) -> Result<Found> {
    let loaded = load_samples(conn, options)?;
    let seconds = loaded.found.observed_seconds();
    Ok(Found {
        samples: loaded.found.samples,
        source: loaded.found.source,
        unit: loaded.found.unit,
        scale: loaded.scale,
        rows: loaded.found.rows,
        first_ts: loaded.found.first_ts,
        last_ts: loaded.found.last_ts,
        seconds,
    })
}

fn observed_seconds(found: &Found) -> i64 {
    found.seconds
}

fn options(entity: &str) -> LoadOptions<'_> {
    LoadOptions {
        entity,
        source: SourceKind::Auto,
        value: ValueColumn::Mean,
        from: None,
        to: None,
        max_gap: 900,
        scale: None,
        clamp_negative: true,
    }
}

fn statistics_of(entity: &str) -> LoadOptions<'_> {
    LoadOptions { source: SourceKind::Statistics, ..options(entity) }
}

fn states_of(entity: &str) -> LoadOptions<'_> {
    LoadOptions { source: SourceKind::States, ..options(entity) }
}

fn layout_of(conn: &Connection, table: StatisticsTable, value: ValueColumn) -> Result<TimeColumn> {
    let exists = table_exists(conn, table.table_name())?;
    let columns = columns_of(conn, table.table_name())?;
    assert_eq!(
        time_column(exists, &columns, table, value),
        statistics_layout(exists, &columns, table, value)
    );
    statistics_layout(exists, &columns, table, value).map_err(|error| Error::msg(error.message()))
}

fn watts_per_unit(unit: &str) -> Option<f64> {
    unit_scale_to_watts(unit).map(|thousandths| thousandths as f64 / 1_000.0)
}

#[test]
fn detects_the_modern_statistics_layout() {
    let db = modern_database();
    assert_eq!(
        layout_of(&db, StatisticsTable::LongTerm, ValueColumn::Mean).unwrap(),
        TimeColumn::Epoch("start_ts")
    );
    assert_eq!(
        layout_of(&db, StatisticsTable::ShortTerm, ValueColumn::Mean).unwrap(),
        TimeColumn::Epoch("start_ts")
    );
    assert_eq!(
        states_layout_of(&db).unwrap(),
        StatesLayout::MetadataId {
            time: TimeColumn::Epoch("last_updated_ts")
        }
    );
}

#[test]
fn detects_the_legacy_statistics_layout() {
    let db = legacy_database();
    assert_eq!(
        layout_of(&db, StatisticsTable::LongTerm, ValueColumn::Mean).unwrap(),
        TimeColumn::Text("start")
    );
    assert_eq!(
        states_layout_of(&db).unwrap(),
        StatesLayout::InlineEntityId {
            time: TimeColumn::Text("last_updated")
        }
    );
}

#[test]
fn reports_a_database_that_is_not_a_recorder_database() {
    let db = Connection::open_in_memory().unwrap();
    db.execute_batch("CREATE TABLE unrelated (id INTEGER)")
        .unwrap();
    let error = layout_of(&db, StatisticsTable::LongTerm, ValueColumn::Mean)
        .unwrap_err()
        .to_string();
    assert!(error.contains("statistics"), "unhelpful error: {error}");
    assert!(states_layout_of(&db).is_err());
}

#[test]
fn rejects_a_stat_column_the_table_does_not_have() {
    let db = Connection::open_in_memory().unwrap();
    db.execute_batch("CREATE TABLE statistics (id INTEGER, start_ts REAL, mean REAL)")
        .unwrap();
    let error = layout_of(&db, StatisticsTable::LongTerm, ValueColumn::Max)
        .unwrap_err()
        .to_string();
    assert!(error.contains("--stat"), "unhelpful error: {error}");
}

#[test]
fn picks_time_columns_in_preference_order() {
    let columns = vec!["start".to_string(), "start_ts".to_string()];
    assert_eq!(
        pick_time_column(
            &columns,
            &[TimeColumn::Epoch("start_ts"), TimeColumn::Text("start")]
        ),
        Some(TimeColumn::Epoch("start_ts"))
    );
    assert_eq!(
        pick_time_column(&[], &[TimeColumn::Epoch("start_ts")]),
        None
    );
    assert!(TimeColumn::Epoch("start_ts").supports_range_pushdown());
    assert!(!TimeColumn::Text("start").supports_range_pushdown());
}

#[test]
fn resolves_entities_in_both_layouts() {
    let db = modern_database();
    let meta = find_statistic(&db, ENTITY).unwrap().unwrap();
    assert_eq!(meta.statistic_id, ENTITY);
    assert_eq!(meta.unit.as_deref(), Some("W"));
    assert!(find_statistic(&db, "sensor.nope").unwrap().is_none());
    assert_eq!(
        find_state_metadata_id(&db, ENTITY).unwrap(),
        Some(1)
    );
    assert_eq!(find_state_metadata_id(&db, "sensor.nope").unwrap(), None);

    let legacy = legacy_database();
    assert!(find_statistic(&legacy, ENTITY).unwrap().is_some());
    assert_eq!(
        find_state_metadata_id(&legacy, ENTITY).unwrap(),
        None
    );
}

#[test]
fn suggests_similar_ids() {
    let db = modern_database();
    let suggestions = suggest_ids(&db, "statistics_meta", "statistic_id", "sensor.solar_powr");
    assert!(
        suggestions.contains(&ENTITY.to_string()),
        "expected a suggestion, got {suggestions:?}"
    );

    // A needle with nothing in common yields nothing rather than noise.
    assert!(suggest_ids(&db, "statistics_meta", "statistic_id", "xyzzy").is_empty());
}

#[test]
fn the_domain_alone_is_nothing_in_common() {
    let db = Connection::open_in_memory().expect("open in-memory database");
    create_schema(&db, Flavour::Modern);
    insert_statistic_meta(&db, "sensor.attic_temp", None);
    let similar = |needle: &str| suggest_ids(&db, "statistics_meta", "statistic_id", needle);
    assert!(similar("sensor.xyzzy").is_empty());
    assert_eq!(similar("sensor.attic_humidity"), Vec::<String>::new(), "humidity is longer");
    assert_eq!(similar("sensor.attic_wet"), vec!["sensor.attic_temp"]);
    insert_statistic_meta(&db, "sensor.pv_solar_total", Some("W"));
    assert_eq!(similar("sensor.solar_power"), vec!["sensor.pv_solar_total"]);
}

#[test]
fn not_found_errors_mention_suggestions() {
    let plain = not_found_error("statistic", "sensor.a", &[]);
    assert!(plain.contains("sensor.a"));
    assert!(!plain.contains("did you mean"));

    let with_hint =
        not_found_error("statistic", "sensor.a", &["sensor.ab".to_string()]);
    assert!(with_hint.contains("did you mean"));
    assert!(with_hint.contains("sensor.ab"));
}

#[test]
fn converts_known_power_units() {
    assert_eq!(watts_per_unit("W"), Some(1.0));
    assert_eq!(watts_per_unit(" kW "), Some(1_000.0));
    assert_eq!(watts_per_unit("MW"), Some(1_000_000.0));
    assert_eq!(watts_per_unit("kWh"), None);
    assert_eq!(watts_per_unit(""), None);
}

#[test]
fn reads_timestamps_and_values_of_any_storage_class() {
    assert_eq!(value_to_timestamp(&stored(&Value::Integer(120))), Some(120));
    assert_eq!(value_to_timestamp(&stored(&Value::Real(120.9))), Some(120));
    assert_eq!(
        value_to_timestamp(&stored(&Value::Text("1970-01-01 00:02:00".into()))),
        Some(120)
    );
    assert_eq!(value_to_timestamp(&stored(&Value::Null)), None);
    assert_eq!(value_to_timestamp(&stored(&Value::Real(f64::NAN))), None);

    assert_eq!(value_to_f64(&Value::Integer(7)), Some(7.0));
    assert_eq!(value_to_f64(&Value::Real(7.5)), Some(7.5));
    assert_eq!(value_to_f64(&Value::Text("7.5".into())), Some(7.5));
    assert_eq!(value_to_f64(&Value::Text("unavailable".into())), None);
    assert_eq!(value_to_f64(&Value::Null), None);
    assert_eq!(value_to_f64(&Value::Real(f64::INFINITY)), None);
}

#[test]
fn auto_prefers_long_term_statistics() {
    let db = modern_database();
    assert_eq!(choose_source(&db, ENTITY).unwrap(), SourceKind::Statistics);

    let loaded = load(&db, &options(ENTITY)).unwrap();
    assert_eq!(loaded.source, SourceKind::Statistics);
    assert_eq!(loaded.samples.len(), 3);
    assert_eq!(loaded.first_ts, Some(ts("2024-06-21 09:00:00")));
    assert_eq!(loaded.last_ts, Some(ts("2024-06-21 13:00:00")));
    assert_eq!(observed_seconds(&loaded), 3 * 3_600);
}

#[test]
fn auto_falls_back_to_short_term_statistics() {
    let conn = Connection::open_in_memory().unwrap();
    create_schema(&conn, Flavour::Modern);
    let metadata_id = insert_statistic_meta(&conn, ENTITY, Some("W"));
    insert_statistics_row(
        &conn,
        Flavour::Modern,
        "statistics_short_term",
        metadata_id,
        ts("2024-06-21 09:00:00"),
        Some(900.0),
    );
    assert_eq!(choose_source(&conn, ENTITY).unwrap(), SourceKind::ShortTerm);
    assert_eq!(
        load(&conn, &options(ENTITY)).unwrap().source,
        SourceKind::ShortTerm
    );
}

#[test]
fn auto_falls_back_to_raw_states() {
    let conn = Connection::open_in_memory().unwrap();
    create_schema(&conn, Flavour::Modern);
    let metadata_id = insert_states_meta(&conn, ENTITY);
    insert_state(
        &conn,
        Flavour::Modern,
        ENTITY,
        metadata_id,
        ts("2024-06-21 09:00:00"),
        "1234",
    );
    assert_eq!(choose_source(&conn, ENTITY).unwrap(), SourceKind::States);

    let loaded = load(&conn, &options(ENTITY)).unwrap();
    assert_eq!(loaded.source, SourceKind::States);
    assert_eq!(loaded.samples[0].watts, 1_234.0);
}

#[test]
fn an_explicit_source_is_used_even_when_another_has_more_data() {
    let db = modern_database();
    let mut options = options(ENTITY);
    options.source = SourceKind::States;
    let loaded = load(&db, &options).unwrap();
    assert_eq!(loaded.source, SourceKind::States);
    assert_eq!(loaded.samples.len(), 4);
}

/// A power sensor and its energy-counter sibling, the shape that made a first real
/// run fail.
fn power_and_counter() -> Connection {
    let conn = Connection::open_in_memory().unwrap();
    create_schema(&conn, Flavour::Modern);
    let power = insert_statistic_meta(&conn, "sensor.eve_plug_power", Some("W"));
    let energy = insert_statistic_meta_with_flags(
        &conn,
        "sensor.eve_plug_energy",
        Some("kWh"),
        false,
        true,
    );
    let base = ts("2025-06-01 00:00:00");
    for hour in 0..8 {
        insert_statistics_row(
            &conn,
            Flavour::Modern,
            "statistics",
            power,
            base + hour * 3_600,
            Some(900.0),
        );
        insert_statistics_sum_row(
            &conn,
            Flavour::Modern,
            "statistics",
            energy,
            base + hour * 3_600,
            hour as f64 * 0.9,
        );
    }
    conn
}

fn load_failure(conn: &Connection, entity: &str) -> String {
    let options = options(entity);
    let loaded = load(conn, &options).expect("the entity resolves");
    assert!(loaded.samples.is_empty(), "expected no usable samples");
    explain(conn, &options, loaded.source, &Zone::utc())
}

#[test]
fn an_energy_counter_is_diagnosed_and_redirected() {
    let conn = power_and_counter();
    let error = load_failure(&conn, "sensor.eve_plug_energy");

    assert!(error.contains("8 rows"), "the rows are counted: {error}");
    assert!(
        error.contains("`mean`"),
        "the missing column is named: {error}"
    );
    assert!(error.contains("kWh"), "the recorded unit is named: {error}");
    assert!(
        error.contains("cumulative") && error.contains("W or kW"),
        "the reason is explained: {error}"
    );
    assert!(
        error.contains("sensor.eve_plug_power"),
        "the sibling power sensor is offered: {error}"
    );
    assert!(error.contains("--list-entities"), "{error}");
}

#[test]
fn a_counter_is_never_read_from_raw_states_instead() {
    // Its states are a climbing kWh total; plotting them as watts would be nonsense,
    // so `auto` must stop at the statistics table rather than fall through.
    let conn = power_and_counter();
    let states_id = insert_states_meta(&conn, "sensor.eve_plug_energy");
    let base = ts("2025-06-01 00:00:00");
    for hour in 0..8 {
        insert_state(
            &conn,
            Flavour::Modern,
            "sensor.eve_plug_energy",
            states_id,
            base + hour * 3_600,
            "7.2",
        );
    }

    assert_eq!(
        choose_source(&conn, "sensor.eve_plug_energy").unwrap(),
        SourceKind::Statistics
    );
    let error = load_failure(&conn, "sensor.eve_plug_energy");
    assert!(
        error.contains("not one of them carries a `mean`"),
        "{error}"
    );
}

#[test]
fn an_unknown_entity_is_told_what_is_available() {
    let conn = power_and_counter();
    let error = load(&conn, &options("sensor.nope"))
        .unwrap_err()
        .to_string();
    // The existing "did you mean" still applies when something looks similar.
    let close = load(&conn, &options("sensor.eve_plug_powr"))
        .unwrap_err()
        .to_string();
    assert!(close.contains("did you mean"), "{close}");
    assert!(close.contains("sensor.eve_plug_power"), "{close}");
    assert!(error.contains("sensor.nope"), "{error}");
}

#[test]
fn an_empty_window_reports_the_range_that_exists() {
    let conn = power_and_counter();
    let mut options = options("sensor.eve_plug_power");
    options.from = Some(ts("2030-01-01 00:00:00"));
    let loaded = load(&conn, &options).expect("the entity resolves");
    assert!(loaded.samples.is_empty());

    let error = explain(&conn, &options, loaded.source, &Zone::utc());
    assert!(error.contains("2030-01-01"), "the window is named: {error}");
    assert!(error.contains("--from"), "{error}");
}

#[test]
fn an_entity_with_no_rows_at_all_gets_the_candidate_list() {
    let conn = power_and_counter();
    insert_statistic_meta(&conn, "sensor.brand_new", Some("W"));
    let error = load_failure(&conn, "sensor.brand_new");

    assert!(error.contains("no statistics rows at all"), "{error}");
    assert!(
        error.contains("sensor.eve_plug_power"),
        "a usable sensor is still offered: {error}"
    );
}

#[test]
fn a_database_without_recorder_tables_is_rejected() {
    let conn = Connection::open_in_memory().unwrap();
    conn.execute_batch("CREATE TABLE unrelated (id INTEGER)")
        .unwrap();
    let error = choose_source(&conn, ENTITY).unwrap_err().to_string();
    assert!(error.contains("no statistics"), "{error}");
}

#[test]
fn source_kinds_render_as_table_names() {
    assert_eq!(SourceKind::Statistics.to_string(), "statistics");
    assert_eq!(SourceKind::ShortTerm.to_string(), "statistics_short_term");
    assert_eq!(SourceKind::States.to_string(), "states");
}

#[test]
fn reads_hourly_statistics_as_hour_long_samples() {
    let db = modern_database();
    let loaded = load(&db, &statistics_of(ENTITY)).unwrap();

    // Four rows, one of which has a NULL mean.
    assert_eq!(loaded.rows, 4);
    assert_eq!(loaded.samples.len(), 3);
    assert_eq!(loaded.unit.as_deref(), Some("W"));
    assert_eq!(loaded.scale, 1.0);

    let first = loaded.samples[0];
    assert_eq!(first.start_ts, ts("2024-06-21 09:00:00"));
    assert_eq!(first.end_ts, ts("2024-06-21 10:00:00"));
    assert_eq!(first.watts, 1_000.0);
    assert!(
        loaded
            .samples
            .iter()
            .all(|sample| sample.duration() == 3_600)
    );
}

#[test]
fn reads_the_legacy_text_timestamp_schema() {
    let db = legacy_database();
    let loaded = load(&db, &statistics_of(ENTITY)).unwrap();
    assert_eq!(loaded.samples.len(), 3);
    assert_eq!(loaded.samples[0].start_ts, ts("2024-06-21 09:00:00"));
    assert_eq!(loaded.samples[0].watts, 1_000.0);
}

#[test]
fn reads_short_term_statistics_as_five_minute_samples() {
    let db = modern_database();
    let mut request = statistics_of(ENTITY);
    request.source = SourceKind::ShortTerm;
    let loaded = load(&db, &request).unwrap();
    assert_eq!(loaded.samples.len(), 3);
    assert!(loaded.samples.iter().all(|sample| sample.duration() == 300));
}

#[test]
fn honours_the_stat_column() {
    let db = modern_database();
    let mut request = statistics_of(ENTITY);
    request.value = ValueColumn::Max;
    let loaded = load(&db, &request).unwrap();
    // The builder stores max as 1.5x the mean.
    assert_eq!(loaded.samples[0].watts, 1_500.0);

    request.value = ValueColumn::Min;
    let loaded = load(&db, &request).unwrap();
    assert_eq!(loaded.samples[0].watts, 500.0);
}

#[test]
fn clips_samples_to_the_requested_window() {
    let db = modern_database();
    let mut request = statistics_of(ENTITY);
    // Half way through the first hour to half way through the second.
    request.from = Some(ts("2024-06-21 09:30:00"));
    request.to = Some(ts("2024-06-21 10:30:00"));
    let loaded = load(&db, &request).unwrap();

    assert_eq!(loaded.samples.len(), 2);
    assert_eq!(loaded.samples[0].start_ts, ts("2024-06-21 09:30:00"));
    assert_eq!(loaded.samples[0].duration(), 1_800);
    assert_eq!(loaded.samples[1].end_ts, ts("2024-06-21 10:30:00"));
    assert_eq!(loaded.samples[1].duration(), 1_800);
}

#[test]
fn clips_the_legacy_schema_without_query_pushdown() {
    let db = legacy_database();
    let mut request = statistics_of(ENTITY);
    request.from = Some(ts("2024-06-21 10:30:00"));
    let loaded = load(&db, &request).unwrap();
    assert_eq!(loaded.samples.len(), 2);
    assert_eq!(loaded.samples[0].start_ts, ts("2024-06-21 10:30:00"));
}

#[test]
fn converts_kilowatt_sensors_to_watts() {
    let conn = Connection::open_in_memory().unwrap();
    create_schema(&conn, Flavour::Modern);
    let metadata_id = insert_statistic_meta(&conn, ENTITY, Some("kW"));
    insert_statistics_row(
        &conn,
        Flavour::Modern,
        "statistics",
        metadata_id,
        ts("2024-06-21 09:00:00"),
        Some(3.2),
    );

    let loaded = load(&conn, &statistics_of(ENTITY)).unwrap();
    assert_eq!(loaded.scale, 1_000.0);
    assert!((loaded.samples[0].watts - 3_200.0).abs() < 1e-9);

    // An explicit scale overrides the unit.
    let mut explicit = statistics_of(ENTITY);
    explicit.scale = Some(1.0);
    let loaded = load(&conn, &explicit).unwrap();
    assert_eq!(loaded.samples[0].watts, 3.2);
}

#[test]
fn clamps_negative_readings_when_asked() {
    let conn = Connection::open_in_memory().unwrap();
    create_schema(&conn, Flavour::Modern);
    let metadata_id = insert_statistic_meta(&conn, ENTITY, Some("W"));
    insert_statistics_row(
        &conn,
        Flavour::Modern,
        "statistics",
        metadata_id,
        ts("2024-06-21 02:00:00"),
        Some(-12.0),
    );

    assert_eq!(load(&conn, &statistics_of(ENTITY)).unwrap().samples[0].watts, 0.0);

    let mut keep_negative = statistics_of(ENTITY);
    keep_negative.clamp_negative = false;
    assert_eq!(load(&conn, &keep_negative).unwrap().samples[0].watts, -12.0);
}

#[test]
fn unknown_statistics_produce_a_helpful_error() {
    let db = modern_database();
    let error = load(&db, &statistics_of("sensor.solar_powr"))
        .unwrap_err()
        .to_string();
    assert!(error.contains("sensor.solar_powr"), "{error}");
    assert!(error.contains("did you mean"), "{error}");
    assert!(error.contains(ENTITY), "{error}");
}

#[test]
fn counts_rows_per_table() {
    let db = modern_database();
    let meta = find_statistic(&db, ENTITY).unwrap().unwrap();
    assert_eq!(
        row_count(&db, StatisticsTable::LongTerm, meta.metadata_id).unwrap(),
        4
    );
    assert_eq!(
        row_count(&db, StatisticsTable::ShortTerm, meta.metadata_id).unwrap(),
        4
    );
    assert_eq!(row_count(&db, StatisticsTable::LongTerm, 4_242).unwrap(), 0);
}

#[test]
fn scale_resolution_prefers_the_explicit_value() {
    assert_eq!(scale_factor(Some(2.0), Some("kW")), 2.0);
    assert_eq!(scale_factor(None, Some("kW")), 1_000.0);
    assert_eq!(scale_factor(None, Some("bananas")), 1.0);
    assert_eq!(scale_factor(None, None), 1.0);
}

#[test]
fn weights_readings_by_how_long_they_were_in_effect() {
    let readings = vec![(0, Some(100.0)), (600, Some(200.0)), (1_200, Some(300.0))];
    let samples = samples_from_readings(&readings, 900);
    assert_eq!(samples.len(), 3);
    assert_eq!(samples[0], Sample::new(0, 600, 100.0));
    assert_eq!(samples[1], Sample::new(600, 1_200, 200.0));
    // The final reading is only carried forward by one gap window.
    assert_eq!(samples[2], Sample::new(1_200, 2_100, 300.0));
}

#[test]
fn caps_long_gaps_so_outages_are_not_counted_as_production() {
    // Four hours between readings, but the sensor only vouches for 15 minutes.
    let readings = vec![(0, Some(4_000.0)), (14_400, Some(10.0))];
    let samples = samples_from_readings(&readings, 900);
    assert_eq!(samples[0], Sample::new(0, 900, 4_000.0));
}

#[test]
fn unavailable_readings_end_the_previous_sample() {
    let readings = vec![(0, Some(100.0)), (300, None), (600, Some(200.0))];
    let samples = samples_from_readings(&readings, 900);
    assert_eq!(samples.len(), 2);
    assert_eq!(samples[0], Sample::new(0, 300, 100.0));
    assert_eq!(samples[1], Sample::new(600, 1_500, 200.0));
}

#[test]
fn duplicate_timestamps_do_not_create_zero_length_samples() {
    let readings = vec![(0, Some(100.0)), (0, Some(200.0)), (600, Some(300.0))];
    let samples = samples_from_readings(&readings, 900);
    assert_eq!(samples.len(), 2);
    assert_eq!(samples[0], Sample::new(0, 600, 200.0));
}

#[test]
fn a_zero_gap_leaves_no_observation_time_at_all() {
    // Nothing is ever in effect for longer than the gap, so nothing is observed.
    // The command line rejects this, but the function must not panic on it.
    let readings = vec![(0, Some(100.0)), (600, Some(200.0))];
    assert!(samples_from_readings(&readings, 0).is_empty());
    assert!(samples_from_readings(&readings, -5).is_empty());
}

#[test]
fn reads_raw_states_from_the_modern_schema() {
    let db = modern_database();
    let loaded = load(&db, &states_of(ENTITY)).unwrap();

    assert_eq!(loaded.rows, 5);
    // 500 W, 1500 W, unavailable, 2500 W, 0 W => four numeric readings.
    assert_eq!(loaded.samples.len(), 4);
    let base = ts("2024-06-21 09:00:00");
    assert_eq!(loaded.samples[0], Sample::new(base, base + 600, 500.0));
    assert_eq!(
        loaded.samples[1],
        Sample::new(base + 600, base + 1_200, 1_500.0)
    );
    // The `unavailable` row ends the 1500 W reading and contributes nothing itself.
    assert_eq!(
        loaded.samples[2],
        Sample::new(base + 1_800, base + 2_400, 2_500.0)
    );
}

#[test]
fn reads_raw_states_from_the_legacy_schema() {
    let db = legacy_database();
    let loaded = load(&db, &states_of(ENTITY)).unwrap();
    assert_eq!(loaded.samples.len(), 4);
    assert_eq!(loaded.samples[0].watts, 500.0);
}

#[test]
fn clips_states_to_the_requested_window() {
    let db = modern_database();
    let base = ts("2024-06-21 09:00:00");
    let mut request = states_of(ENTITY);
    request.from = Some(base + 300);
    request.to = Some(base + 900);
    let loaded = load(&db, &request).unwrap();

    assert_eq!(loaded.samples.len(), 2);
    assert_eq!(
        loaded.samples[0],
        Sample::new(base + 300, base + 600, 500.0)
    );
    assert_eq!(
        loaded.samples[1],
        Sample::new(base + 600, base + 900, 1_500.0)
    );
}

#[test]
fn scales_and_clamps_state_values() {
    let conn = Connection::open_in_memory().unwrap();
    create_schema(&conn, Flavour::Modern);
    let metadata_id = insert_states_meta(&conn, ENTITY);
    let base = ts("2024-06-21 09:00:00");
    insert_state(&conn, Flavour::Modern, ENTITY, metadata_id, base, "1.5");
    insert_state(
        &conn,
        Flavour::Modern,
        ENTITY,
        metadata_id,
        base + 600,
        "-0.2",
    );

    let mut request = states_of(ENTITY);
    request.scale = Some(1_000.0);
    let loaded = load(&conn, &request).unwrap();
    assert_eq!(loaded.samples[0].watts, 1_500.0);
    assert_eq!(loaded.samples[1].watts, 0.0);

    request.clamp_negative = false;
    let loaded = load(&conn, &request).unwrap();
    assert!((loaded.samples[1].watts + 200.0).abs() < 1e-9);
}

#[test]
fn unknown_entities_produce_a_helpful_error() {
    let db = modern_database();
    let error = load(&db, &states_of("sensor.solar_powr"))
        .unwrap_err()
        .to_string();
    assert!(error.contains("sensor.solar_powr"), "{error}");
    assert!(error.contains(ENTITY), "{error}");
}

#[test]
fn an_entity_with_no_rows_loads_nothing() {
    let conn = Connection::open_in_memory().unwrap();
    create_schema(&conn, Flavour::Modern);
    insert_states_meta(&conn, ENTITY);
    let loaded = load(&conn, &states_of(ENTITY)).unwrap();
    assert!(loaded.samples.is_empty());
    assert_eq!(loaded.rows, 0);
}

/// A database with a power sensor, its energy counter sibling, and a thermometer.
fn database() -> Connection {
    let conn = Connection::open_in_memory().unwrap();
    create_schema(&conn, Flavour::Modern);
    let power = insert_statistic_meta(&conn, ENTITY, Some("W"));
    // The counter claims a mean in its metadata but carries none in its rows, the way
    // a recent recorder schema does; the data has the last word.
    let energy = insert_statistic_meta_with_flags(
        &conn,
        "sensor.solar_energy",
        Some("kWh"),
        true,
        true,
    );
    let temperature = insert_statistic_meta(&conn, "sensor.attic_temp", Some("°C"));

    let base = ts("2025-06-01 00:00:00");
    for hour in 0..10 {
        insert_statistics_row(
            &conn,
            Flavour::Modern,
            "statistics",
            power,
            base + hour * 3_600,
            Some(1_000.0),
        );
    }
    for hour in 0..6 {
        insert_statistics_sum_row(
            &conn,
            Flavour::Modern,
            "statistics",
            energy,
            base + hour * 3_600,
            hour as f64,
        );
    }
    insert_statistics_row(
        &conn,
        Flavour::Modern,
        "statistics",
        temperature,
        base,
        Some(21.0),
    );
    conn
}

fn find<'a>(candidates: &'a [Candidate], id: &str) -> &'a Candidate {
    candidates
        .iter()
        .find(|candidate| candidate.statistic_id == id)
        .unwrap_or_else(|| panic!("{id} missing from {candidates:?}"))
}

#[test]
fn kinds_come_from_the_rows_not_the_metadata() {
    let candidates = list_statistics(&database(), None).unwrap();

    let power = find(&candidates, ENTITY);
    assert_eq!(power.kind, StatisticKind::Mean);
    assert_eq!(power.rows, 10);
    assert!(power.is_plottable());
    assert!(!power.is_energy_counter());

    // Its metadata says has_mean = 1, but not one row carries a mean.
    let energy = find(&candidates, "sensor.solar_energy");
    assert_eq!(energy.kind, StatisticKind::Total);
    assert_eq!(energy.rows, 6);
    assert!(!energy.is_plottable());
    assert!(energy.is_energy_counter());
}

#[test]
fn power_sensors_rank_above_counters_and_everything_else() {
    let candidates = list_statistics(&database(), None).unwrap();
    let order: Vec<&str> = candidates
        .iter()
        .map(|candidate| candidate.statistic_id.as_str())
        .collect();
    assert_eq!(
        order,
        vec![ENTITY, "sensor.solar_energy", "sensor.attic_temp"]
    );
}

#[test]
fn a_thermometer_is_neither_plottable_nor_a_counter() {
    let candidates = list_statistics(&database(), None).unwrap();
    let temperature = find(&candidates, "sensor.attic_temp");
    assert!(!temperature.is_plottable(), "°C is not power");
    assert!(!temperature.is_energy_counter());
    assert_eq!(temperature.kind, StatisticKind::Mean);
}

#[test]
fn the_filter_narrows_by_substring() {
    let conn = database();
    let solar = list_statistics(&conn, Some("solar")).unwrap();
    assert_eq!(solar.len(), 2);
    assert!(
        list_statistics(&conn, Some("SOLAR")).unwrap().len() == 2,
        "case insensitive"
    );
    assert_eq!(list_statistics(&conn, Some("attic")).unwrap().len(), 1);
    assert!(
        list_statistics(&conn, Some("nothing here"))
            .unwrap()
            .is_empty()
    );
    // An empty filter means everything, so `--list-entities` with no value works.
    assert_eq!(list_statistics(&conn, Some("  ")).unwrap().len(), 3);
}

#[test]
fn candidates_carry_their_date_range() {
    let candidates = list_statistics(&database(), None).unwrap();
    let power = find(&candidates, ENTITY);
    assert_eq!(power.first_ts, Some(ts("2025-06-01 00:00:00")));
    assert_eq!(power.last_ts, Some(ts("2025-06-01 09:00:00")));
    assert_eq!(date_range(power, &Zone::utc()), "2025-06-01 to 2025-06-01");
}

#[test]
fn a_statistic_without_rows_is_listed_as_empty() {
    let conn = Connection::open_in_memory().unwrap();
    create_schema(&conn, Flavour::Modern);
    insert_statistic_meta(&conn, ENTITY, Some("W"));
    let candidates = list_statistics(&conn, None).unwrap();

    assert_eq!(candidates.len(), 1);
    assert_eq!(candidates[0].kind, StatisticKind::Empty);
    assert_eq!(candidates[0].rows, 0);
    assert!(!candidates[0].is_plottable());
    assert_eq!(date_range(&candidates[0], &Zone::utc()), "no rows");
}

#[test]
fn a_database_without_statistics_lists_nothing() {
    let conn = Connection::open_in_memory().unwrap();
    conn.execute_batch("CREATE TABLE unrelated (id INTEGER)")
        .unwrap();
    assert!(list_statistics(&conn, None).unwrap().is_empty());
}

#[test]
fn the_legacy_schema_is_listed_too() {
    let conn = legacy_database();
    let candidates = list_statistics(&conn, None).unwrap();
    let power = find(&candidates, ENTITY);
    assert_eq!(power.rows, 4, "text timestamps and all");
    assert_eq!(power.kind, StatisticKind::Mean);
    assert_eq!(power.first_ts, Some(ts("2024-06-21 09:00:00")));
}

#[test]
fn the_closest_power_sensor_is_the_one_sharing_a_prefix() {
    let conn = Connection::open_in_memory().unwrap();
    create_schema(&conn, Flavour::Modern);
    let base = ts("2025-06-01 00:00:00");
    for (index, id) in [
        "sensor.roof_array_power",
        "sensor.eve_energy_20ecm8301_power",
    ]
    .into_iter()
    .enumerate()
    {
        let metadata_id = insert_statistic_meta(&conn, id, Some("W"));
        // The unrelated sensor has far more rows, so only the prefix can win.
        for hour in 0..(50 - index as i64 * 40) {
            insert_statistics_row(
                &conn,
                Flavour::Modern,
                "statistics",
                metadata_id,
                base + hour * 3_600,
                Some(500.0),
            );
        }
    }

    let candidates = list_statistics(&conn, None).unwrap();
    let closest = closest_power_sensors(&candidates, "sensor.eve_energy_20ecm8301_energy", 2);
    assert_eq!(closest[0].statistic_id, "sensor.eve_energy_20ecm8301_power");
    assert_eq!(closest.len(), 2);

    // Only plottable sensors are ever suggested.
    assert!(closest.iter().all(Candidate::is_plottable));
}

#[test]
fn formatting_aligns_columns_and_caps_the_tail() {
    let candidates = list_statistics(&database(), None).unwrap();
    let table = format_candidates(&candidates, &Zone::utc(), 2);

    let lines: Vec<&str> = table.lines().collect();
    assert_eq!(lines.len(), 3, "two rows and a tail: {table}");
    assert!(lines[0].contains(ENTITY));
    assert!(lines[0].contains(" W "), "the unit is shown: {}", lines[0]);
    assert!(lines[0].contains("10 rows"));
    assert!(lines[2].contains("and 1 more"));

    // Columns line up, so the ids are padded to a common width.
    let unit_at = |line: &str| line.find(" W ").or_else(|| line.find(" kWh ")).unwrap();
    assert_eq!(unit_at(lines[0]), unit_at(lines[1]));
}

#[test]
fn formatting_an_empty_list_says_so() {
    assert_eq!(format_candidates(&[], &Zone::utc(), 10), "  (none)\n");
}

#[test]
fn the_listing_separates_power_from_counters() {
    let listing = format_listing(&list_statistics(&database(), None).unwrap(), &Zone::utc(), 20);
    assert!(listing.contains("Power sensors this tool can plot:"));
    assert!(listing.contains("Energy counters"));
    assert!(listing.contains("Other statistics:"));

    // The power sensor is above the counter, which is above the thermometer.
    let position = |needle: &str| listing.find(needle).expect("listed");
    assert!(position(ENTITY) < position("sensor.solar_energy"));
    assert!(position("sensor.solar_energy") < position("sensor.attic_temp"));
}

#[test]
fn builds_both_schema_flavours() {
    for conn in [modern_database(), legacy_database()] {
        let rows: i64 = conn
            .query_row("SELECT COUNT(*) FROM statistics", [], |row| row.get(0))
            .unwrap();
        assert_eq!(rows, 4);
        let states: i64 = conn
            .query_row("SELECT COUNT(*) FROM states", [], |row| row.get(0))
            .unwrap();
        assert_eq!(states, 5);
    }
}

#[test]
fn legacy_timestamps_round_trip() {
    let stamp = ts("2024-06-21 09:00:00");
    assert_eq!(parse_ha_datetime(&format_utc(stamp)), Some(stamp));
}

#[test]
fn outage_plans_say_which_days_survive() {
    let plan = Outages {
        missing_days: vec![3, 4],
        missing_ranges: vec![(10, 13)],
        missing_hours: vec![0, 1],
    };
    assert!(plan.covers(2));
    assert!(!plan.covers(3));
    assert!(!plan.covers(11));
    assert!(plan.covers(13), "the range end is exclusive");
    assert_eq!(plan.covered_days(20), 15);
    assert!(Outages::none().covers(0));
    assert_eq!(Outages::none().covered_days(30), 30);
}

#[test]
fn a_spotty_history_really_has_holes_in_it() {
    let days = 200;
    let plan = Outages::spotty(days);
    let dense = synthetic_year_database("2025-01-01 00:00:00", days, 1);
    let spotty = synthetic_history_database("2025-01-01 00:00:00", days, 1, &plan);

    let rows = |conn: &Connection| {
        conn.query_row::<i64, _, _>("SELECT COUNT(*) FROM statistics", [], |row| row.get(0))
            .unwrap()
    };
    assert_eq!(rows(&dense), days * 24);
    assert_eq!(rows(&spotty), plan.covered_days(days) * 24);
    assert!(
        plan.covered_days(days) < days - 20,
        "not enough was removed"
    );
}

#[test]
fn synthetic_years_are_reproducible() {
    let count = |seed| {
        let conn = synthetic_year_database("2024-01-01 00:00:00", 5, seed);
        conn.query_row::<f64, _, _>("SELECT SUM(mean) FROM statistics", [], |row| row.get(0))
            .unwrap()
    };
    assert_eq!(count(7), count(7));
    assert_ne!(count(7), count(8));
}

#[test]
fn layouts_say_what_is_missing() {
    let columns = |names: &[&str]| -> Vec<String> {
        column_names(&names.iter().map(|name| name.to_string()).collect::<Vec<String>>())
    };
    let table = StatisticsTable::LongTerm;
    assert_eq!(
        statistics_layout(false, &[], table, ValueColumn::Mean),
        Err(LayoutError::NoStatistics(table))
    );
    assert_eq!(
        statistics_layout(true, &columns(&["start_ts"]), table, ValueColumn::Max),
        Err(LayoutError::NoValueColumn(table, ValueColumn::Max))
    );
    assert_eq!(
        statistics_layout(true, &columns(&["Mean"]), table, ValueColumn::Mean),
        Err(LayoutError::NoStartColumn(table))
    );
    assert_eq!(states_layout(false, &[], true), Err(LayoutError::NoStates));
    assert_eq!(
        states_layout(true, &columns(&["metadata_id"]), true),
        Err(LayoutError::NoStateTime)
    );
    assert_eq!(
        states_layout(true, &columns(&["LAST_UPDATED", "metadata_id"]), false),
        Err(LayoutError::NoStateKey)
    );
    assert_eq!(
        LayoutError::NoStatistics(StatisticsTable::ShortTerm).message(),
        "this database has no `statistics_short_term` table - it does not look like a Home \
         Assistant recorder database"
    );
    assert_eq!(
        LayoutError::NoStateKey.message(),
        "table `states` has neither a `metadata_id` nor an `entity_id` column"
    );
}

#[test]
fn a_missing_entity_is_quoted() {
    assert_eq!(
        not_found_error("entity", "sensor.\"odd\"", &[]),
        "no entity named \"sensor.\\\"odd\\\"\" in this database"
    );
    let similar = vec!["sensor.a".to_string(), "sensor.b".to_string()];
    assert_eq!(
        not_found_error("statistic", "sensor.c", &similar),
        "no statistic named \"sensor.c\" in this database; did you mean one of:\n  sensor.a\n  sensor.b"
    );
}

#[test]
fn suggestions_widen_step_by_step() {
    assert_eq!(
        suggestion_patterns("sensor.solar_power"),
        vec!["sensor.solar_power", "solar_power", "solar"]
    );
    assert_eq!(
        suggestion_patterns("sensor.eve_plug_powr"),
        vec!["sensor.eve_plug_powr", "eve_plug_powr", "plug"],
        "the first of equally long words"
    );
    assert_eq!(suggestion_patterns("sensor.xyzzy"), vec!["sensor.xyzzy", "xyzzy", "xyzzy"]);
    assert_eq!(suggestion_patterns("solar_roof"), vec!["solar_roof", "solar"]);
    assert_eq!(suggestion_patterns("ab"), vec!["ab"]);
    assert_eq!(anywhere("solar"), "%solar%");
}

#[test]
fn queries_narrow_to_the_window_where_times_are_numbers() {
    let (sql, params) = rows_query(
        TimeColumn::Epoch("start_ts"),
        StatisticsTable::LongTerm,
        ValueColumn::Mean,
        7,
        Some(10_000),
        Some(20_000),
    );
    assert_eq!(
        sql,
        "SELECT \"start_ts\", \"mean\" FROM \"statistics\" WHERE metadata_id = ?1 AND \
         \"start_ts\" >= ?2 AND \"start_ts\" < ?3 ORDER BY \"start_ts\""
    );
    assert_eq!(params, vec![7, 6_400, 20_000]);
    let (sql, params) = rows_query(
        TimeColumn::Text("start"),
        StatisticsTable::ShortTerm,
        ValueColumn::Min,
        7,
        Some(10_000),
        None,
    );
    assert_eq!(
        sql,
        "SELECT \"start\", \"min\" FROM \"statistics_short_term\" WHERE metadata_id = ?1 ORDER \
         BY \"start\""
    );
    assert_eq!(params, vec![7]);
}

#[test]
fn a_big_catalogue_is_scanned_whole() {
    let columns = vec!["start_ts".to_string(), "sum".to_string()];
    let named = catalog::row_summary(&columns, &[3, 1]);
    assert!(named.contains(" WHERE metadata_id IN (3, 1) "), "{named}");
    let ids: Vec<i64> = (0..65).collect();
    assert!(!catalog::row_summary(&columns, &ids).contains("WHERE"));
    let legacy = catalog::row_summary(&["start".to_string()], &[1]);
    assert!(legacy.contains("COUNT(NULL)") && legacy.contains("MIN(\"start\")"), "{legacy}");
}

#[test]
fn raw_rows_are_put_in_order_and_rows_without_a_time_dropped() {
    let rows = vec![(Some(600), Some(2.0)), (None, Some(9.0)), (Some(0), Some(1.0))];
    let readings = readings_from_rows(&rows);
    assert_eq!(readings, vec![(600, Some(2.0)), (0, Some(1.0))]);
    assert_eq!(
        samples_within(&readings, 300, None, Some(700)),
        vec![Sample::new(0, 300, 1.0), Sample::new(600, 700, 2.0)]
    );
}

#[test]
fn the_search_for_a_table_asks_one_thing_at_a_time() {
    let mut facts = AutoFacts::unknown();
    assert_eq!(resolve_auto(&facts), AutoStep::Ask(AutoQuestion::HasStatisticsMeta));
    facts.statistics_meta = Some(false);
    assert_eq!(resolve_auto(&facts), AutoStep::Ask(AutoQuestion::HasStates));
    facts.states = Some(false);
    assert_eq!(resolve_auto(&facts), AutoStep::Ask(AutoQuestion::HasLongTerm));
    facts.long_term = Some(false);
    assert_eq!(resolve_auto(&facts), AutoStep::Nothing);
    facts.long_term = Some(true);
    assert_eq!(resolve_auto(&facts), AutoStep::Read(SourceKind::Statistics));
}

#[test]
fn the_generator_is_reproducible() {
    let mut rng = Lcg::new(0);
    assert_eq!(rng.next_u32(), (1_442_695_040_888_963_407_u64 >> 33) as u32);
    let mut again = Lcg::new(0);
    again.next_u32();
    assert_eq!(rng.next_u32(), again.next_u32());
}

#[test]
fn instants_are_parsed_together() {
    assert_eq!(
        all_ts(&["1970-01-01 00:00:01", "1970-01-01 00:00:02"]),
        Some(vec![1, 2])
    );
    assert_eq!(all_ts(&["1970-01-01 00:00:01", "gibberish"]), None);
    assert_eq!(format_utc(0), "1970-01-01 00:00:00.000000");
}
