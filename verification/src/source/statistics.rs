//! Reading Home Assistant's long-term and short-term statistics tables.
//!
//! These tables are what makes a full year of history available: the recorder keeps raw
//! states for about ten days by default, but hourly statistics for as long as the
//! database lives.

use vstd::prelude::*;

use crate::model::Sample;
use crate::source::schema;
use crate::source::schema::{LayoutError, StatisticsTable, TimeColumn, ValueColumn};
use crate::source::states;
use crate::sums;
use crate::text;

verus! {

/// The query that counts the rows of one statistic in a table.
pub fn row_count_query(table: StatisticsTable) -> (sql: String)
    ensures
        sql@ == "SELECT COUNT(*) FROM \""@ + table.table() + "\" WHERE metadata_id = ?1"@,
{
    let mut sql: String = String::from_str("SELECT COUNT(*) FROM \"");
    sql.append(table.table_name());
    sql.append("\" WHERE metadata_id = ?1");
    sql
}

/// The condition that narrows a query to rows reaching into a window. The first parameter
/// of the query is the statistic; the bounds follow.
pub open spec fn window_condition(
    time: TimeColumn,
    from: Option<i64>,
    to: Option<i64>,
) -> Seq<char> {
    if !(time is Epoch) {
        Seq::empty()
    } else {
        let lower = if from is Some {
            " AND \""@ + time.column() + "\" >= ?"@ + text::decimal(2)
        } else {
            Seq::empty()
        };
        let place: nat = if from is Some {
            3
        } else {
            2
        };
        if to is Some {
            lower + " AND \""@ + time.column() + "\" < ?"@ + text::decimal(place)
        } else {
            lower
        }
    }
}

/// The parameters of a query: the statistic, then the bounds that its condition names. A
/// row that starts just before the window can still reach into it.
pub open spec fn window_parameters(
    time: TimeColumn,
    table: StatisticsTable,
    metadata_id: i64,
    from: Option<i64>,
    to: Option<i64>,
) -> Seq<i64> {
    let lower = match from {
        Some(from) => seq![metadata_id, (from - table.interval()) as i64],
        None => seq![metadata_id],
    };
    if !(time is Epoch) {
        seq![metadata_id]
    } else {
        match to {
            Some(to) => lower.push(to),
            None => lower,
        }
    }
}

/// The query for the rows of one statistic that reach into a window, oldest first.
pub open spec fn rows_text(
    time: TimeColumn,
    table: StatisticsTable,
    value: ValueColumn,
    from: Option<i64>,
    to: Option<i64>,
) -> Seq<char> {
    "SELECT \""@ + time.column() + "\", \""@ + value.column() + "\" FROM \""@ + table.table()
        + "\" WHERE metadata_id = ?1"@ + window_condition(time, from, to) + " ORDER BY \""@
        + time.column() + "\""@
}

/// The query for the rows of one statistic that reach into `[from, to)`, and its parameters.
pub fn rows_query(
    time: TimeColumn,
    table: StatisticsTable,
    value: ValueColumn,
    metadata_id: i64,
    from: Option<i64>,
    to: Option<i64>,
) -> (query: (String, Vec<i64>))
    requires
        from matches Some(from) ==> from - table.interval() >= i64::MIN,
    ensures
        query.0@ == rows_text(time, table, value, from, to),
        query.1@ == window_parameters(time, table, metadata_id, from, to),
{
    let mut condition: String = String::new();
    let mut parameters: Vec<i64> = Vec::new();
    parameters.push(metadata_id);
    if time.supports_range_pushdown() {
        if let Some(from) = from {
            parameters.push(from - table.interval_seconds());
            condition.append(" AND \"");
            condition.append(time.name());
            condition.append("\" >= ?");
            text::push_number(&mut condition, parameters.len() as u64);
        }
        if let Some(to) = to {
            parameters.push(to);
            condition.append(" AND \"");
            condition.append(time.name());
            condition.append("\" < ?");
            text::push_number(&mut condition, parameters.len() as u64);
        }
    }
    assert(parameters@ =~= window_parameters(time, table, metadata_id, from, to));
    assert(condition@ =~= window_condition(time, from, to));
    let mut sql: String = String::from_str("SELECT \"");
    sql.append(time.name());
    sql.append("\", \"");
    sql.append(value.column_name());
    sql.append("\" FROM \"");
    sql.append(table.table_name());
    sql.append("\" WHERE metadata_id = ?1");
    sql.append(condition.as_str());
    sql.append(" ORDER BY \"");
    sql.append(time.name());
    sql.append("\"");
    (sql, parameters)
}

/// The samples that rows make: a row that carries both a start and a reading covers one
/// interval from there. `NULL` means the sensor reported nothing, so such a row contributes
/// no observation time.
pub open spec fn samples_of<W>(rows: Seq<(Option<i64>, Option<W>)>, interval: int) -> Seq<Sample<W>>
    decreases rows.len(),
{
    if rows.len() == 0 {
        Seq::empty()
    } else {
        let before = samples_of(rows.drop_last(), interval);
        match rows.last() {
            (Some(start), Some(watts)) => before.push(
                Sample { start_ts: start, end_ts: (start + interval) as i64, watts },
            ),
            _ => before,
        }
    }
}

/// The rows of a statistics table as samples, clipped to `[from, to)`.
pub fn samples_from_rows<W: Copy>(
    rows: &[(Option<i64>, Option<W>)],
    table: StatisticsTable,
    from: Option<i64>,
    to: Option<i64>,
) -> (samples: Vec<Sample<W>>)
    requires
        forall|i: int|
            0 <= i < rows@.len() ==> ((#[trigger] rows@[i]).0 matches Some(start) ==> start
                + table.interval() <= i64::MAX),
    ensures
        samples@ == states::clipped_samples(samples_of(rows@, table.interval()), from, to),
{
    let interval: i64 = table.interval_seconds();
    let mut samples: Vec<Sample<W>> = Vec::new();
    let length: usize = rows.len();
    let mut i: usize = 0;
    while i < length
        invariant
            i <= length,
            length == rows@.len(),
            interval == table.interval(),
            forall|i: int|
                0 <= i < rows@.len() ==> ((#[trigger] rows@[i]).0 matches Some(start) ==> start
                    + table.interval() <= i64::MAX),
            samples@ == samples_of(rows@.take(i as int), table.interval()),
        decreases length - i,
    {
        proof {
            assert(rows@.take(i + 1).drop_last() =~= rows@.take(i as int));
        }
        let (start, value) = rows[i];
        if let (Some(start), Some(watts)) = (start, value) {
            assert(rows@[i as int].0 == Some(start));
            samples.push(Sample::new(start, start + interval, watts));
        }
        i = i + 1;
    }
    proof {
        assert(rows@.take(i as int) =~= rows@);
    }
    states::clip_all(samples.as_slice(), from, to)
}

/// Narrowing the query loses no sample: a row of which anything is left inside `[from, to)`
/// starts where the bounds of the query let it through.
pub proof fn narrowing_loses_nothing<W>(
    start: i64,
    watts: W,
    table: StatisticsTable,
    from: Option<i64>,
    to: Option<i64>,
)
    requires
        start + table.interval() <= i64::MAX,
        ({
            let sample = Sample {
                start_ts: start,
                end_ts: (start + table.interval()) as i64,
                watts,
            };
            sample.clipped_start(from) < sample.clipped_end(to)
        }),
    ensures
        from matches Some(from) ==> start >= from - table.interval(),
        to matches Some(to) ==> start < to,
{
}

/// A bound on the start of a row as it is written in a condition: at least, or below, the
/// parameter at a place.
pub open spec fn bound_text(column: Seq<char>, at_least: bool, place: nat) -> Seq<char> {
    " AND \""@ + column + (if at_least {
        "\" >= ?"@
    } else {
        "\" < ?"@
    }) + text::decimal(place)
}

/// Bounds as they are written one after the other.
pub open spec fn bounds_text(column: Seq<char>, bounds: Seq<(bool, nat)>) -> Seq<char>
    decreases bounds.len(),
{
    if bounds.len() == 0 {
        Seq::empty()
    } else {
        bounds_text(column, bounds.drop_last()) + bound_text(
            column,
            bounds.last().0,
            bounds.last().1,
        )
    }
}

/// Whether a row that starts there meets every bound, each held against the parameter at the
/// place it names.
pub open spec fn admits(bounds: Seq<(bool, nat)>, parameters: Seq<i64>, start: int) -> bool {
    forall|i: int|
        0 <= i < bounds.len() ==> {
            let (at_least, place) = #[trigger] bounds[i];
            &&& 1 <= place <= parameters.len()
            &&& if at_least {
                start >= parameters[place - 1]
            } else {
                start < parameters[place - 1]
            }
        }
}

/// Whether a condition with these parameters lets exactly the rows through that start in
/// `[lowest, below)`, either of which may be open: it is written as bounds, and these admit
/// such a row and no other.
pub open spec fn lets_through(
    condition: Seq<char>,
    column: Seq<char>,
    parameters: Seq<i64>,
    lowest: Option<int>,
    below: Option<int>,
) -> bool {
    exists|bounds: Seq<(bool, nat)>| #[trigger]
        bounds_text(column, bounds) == condition && forall|start: int|
            #[trigger] admits(bounds, parameters, start) <==> (lowest matches Some(lowest)
                ==> start >= lowest) && (below matches Some(below) ==> start < below)
}

/// The condition of a query on epoch times lets exactly the rows through that start no
/// earlier than one interval before the window and before its end, whichever of its bounds
/// are given; on times kept as text it narrows nothing.
pub proof fn the_condition_keeps_to_the_window(
    time: TimeColumn,
    table: StatisticsTable,
    metadata_id: i64,
    from: Option<i64>,
    to: Option<i64>,
)
    requires
        from matches Some(from) ==> from - table.interval() >= i64::MIN,
    ensures
        window_parameters(time, table, metadata_id, from, to)[0] == metadata_id,
        time is Epoch ==> lets_through(
            window_condition(time, from, to),
            time.column(),
            window_parameters(time, table, metadata_id, from, to),
            match from {
                Some(from) => Some(
                    from - match table {
                        StatisticsTable::LongTerm => 3_600int,
                        StatisticsTable::ShortTerm => 300int,
                    },
                ),
                None => None,
            },
            match to {
                Some(to) => Some(to as int),
                None => None,
            },
        ),
        !(time is Epoch) ==> window_condition(time, from, to).len() == 0,
        !(time is Epoch) ==> window_parameters(time, table, metadata_id, from, to).len() == 1,
{
    if time is Epoch {
        let parameters = window_parameters(time, table, metadata_id, from, to);
        let none = Seq::<(bool, nat)>::empty();
        let lower = if from is Some {
            none.push((true, 2))
        } else {
            none
        };
        let bounds = if to is Some {
            lower.push((false, lower.len() + 2))
        } else {
            lower
        };
        assert(none.push((true, 2)).drop_last() =~= none);
        assert(lower.push((false, lower.len() + 2)).drop_last() =~= lower);
        assert(bounds_text(time.column(), none) =~= Seq::empty());
        assert(bounds_text(time.column(), lower) =~= if from is Some {
            bound_text(time.column(), true, 2)
        } else {
            Seq::empty()
        });
        assert(bounds_text(time.column(), bounds) =~= window_condition(time, from, to));
        assert forall|start: int| #[trigger]
            admits(bounds, parameters, start) <==> (from matches Some(from) ==> start >= from
                - table.interval()) && (to matches Some(to) ==> start < to) by {
            if from is Some {
                assert(bounds[0] == (true, 2nat));
            }
            if to is Some {
                assert(bounds[lower.len() as int] == (false, lower.len() + 2));
            }
        }
    }
}

/// No row is lost to the condition: one of whose interval any instant lies in the window
/// starts where the condition lets it through.
pub proof fn rows_in_the_window_are_let_through(
    table: StatisticsTable,
    start: int,
    instant: int,
    from: Option<i64>,
    to: Option<i64>,
)
    requires
        start <= instant < start + table.interval(),
        from matches Some(from) ==> from <= instant,
        to matches Some(to) ==> instant < to,
    ensures
        from matches Some(from) ==> start >= from - table.interval(),
        to matches Some(to) ==> start < to,
{
}

/// How many of the first `count` rows carry both a start and a reading.
pub open spec fn complete_rows<W>(rows: Seq<(Option<i64>, Option<W>)>, count: nat) -> nat {
    sums::count_where(count, |i: int| rows[i].0 is Some && rows[i].1 is Some)
}

/// Every row with a start and a reading covers one interval from there, in the order of the
/// rows, and no other row covers anything: a long-term row an hour, a short-term row five
/// minutes.
pub proof fn every_complete_row_covers_one_interval<W>(
    rows: Seq<(Option<i64>, Option<W>)>,
    table: StatisticsTable,
)
    requires
        forall|i: int|
            0 <= i < rows.len() ==> ((#[trigger] rows[i]).0 matches Some(start) ==> start
                + table.interval() <= i64::MAX),
    ensures
        samples_of(rows, table.interval()).len() == complete_rows(rows, rows.len()),
        forall|i: int|
            0 <= i < rows.len() && (#[trigger] rows[i]).0 is Some && rows[i].1 is Some ==> {
                let sample = samples_of(rows, table.interval())[complete_rows(
                    rows,
                    i as nat,
                ) as int];
                &&& sample.start_ts == rows[i].0->0
                &&& sample.watts == rows[i].1->0
                &&& sample.end_ts - sample.start_ts == match table {
                    StatisticsTable::LongTerm => 3_600int,
                    StatisticsTable::ShortTerm => 300int,
                }
            },
    decreases rows.len(),
{
    if rows.len() > 0 {
        let rest = rows.drop_last();
        let last = rows.len() - 1;
        assert forall|i: int| 0 <= i < rest.len() implies #[trigger] rest[i] == rows[i] by {}
        every_complete_row_covers_one_interval(rest, table);
        let before = samples_of(rest, table.interval());
        let samples = samples_of(rows, table.interval());
        let complete = |i: int| rows[i].0 is Some && rows[i].1 is Some;
        let complete_before = |i: int| rest[i].0 is Some && rest[i].1 is Some;
        sums::counts_agree(rest.len(), complete, complete_before);
        assert(complete(last) == (rows[last].0 is Some && rows[last].1 is Some));
        assert(complete_rows(rows, last as nat) == before.len());
        assert forall|i: int|
            0 <= i < rows.len() && (#[trigger] rows[i]).0 is Some && rows[i].1 is Some implies {
            let sample = samples[complete_rows(rows, i as nat) as int];
            &&& sample.start_ts == rows[i].0->0
            &&& sample.watts == rows[i].1->0
            &&& sample.end_ts - sample.start_ts == table.interval()
        } by {
            if i < last {
                assert(rest[i] == rows[i]);
                sums::counts_agree(i as nat, complete, complete_before);
                sums::counts_never_fall((i + 1) as nat, rest.len(), complete_before);
                assert(complete_before(i));
                let k = complete_rows(rows, i as nat) as int;
                assert(k < before.len());
                assert(samples[k] == before[k]);
            }
        }
    }
}

/// The factor that turns readings into watts, as far as the recorded unit decides it.
#[derive(Debug, Clone, Copy, PartialEq, Eq)]
pub enum WattScale {
    /// The factor that was asked for.
    Explicit,
    /// A factor in thousandths.
    Thousandths(u64),
}

/// The factor that brings readings to watts.
pub open spec fn scale_of(explicit: bool, unit: Option<Seq<char>>) -> WattScale {
    if explicit {
        WattScale::Explicit
    } else {
        match unit {
            Some(unit) => match schema::milliwatts_per(unit) {
                Some(milliwatts) => WattScale::Thousandths(milliwatts),
                None => WattScale::Thousandths(1_000),
            },
            None => WattScale::Thousandths(1_000),
        }
    }
}

/// Explicit `--scale` wins; otherwise a recognised unit is converted to watts and
/// anything else is left alone.
pub fn resolve_scale(explicit: bool, unit: Option<&str>) -> (scale: WattScale)
    ensures
        scale == scale_of(
            explicit,
            match unit {
                Some(unit) => Some(unit@),
                None => None,
            },
        ),
{
    if explicit {
        return WattScale::Explicit;
    }
    match unit {
        Some(unit) => match schema::unit_scale_to_watts(unit) {
            Some(milliwatts) => WattScale::Thousandths(milliwatts),
            None => WattScale::Thousandths(1_000),
        },
        None => WattScale::Thousandths(1_000),
    }
}

/// Timestamp column used for a statistics table, exposed for diagnostics.
pub fn time_column(
    exists: bool,
    columns: &[String],
    table: StatisticsTable,
    value: ValueColumn,
) -> (column: Result<TimeColumn, LayoutError>)
    ensures
        column == schema::statistics_reading(exists, columns@, table, value),
{
    schema::statistics_layout(exists, columns, table, value)
}

/// The query takes the start and the value of each row, in that order, from the rows of its
/// one statistic in its own table, and hands them out from the oldest to the newest.
pub proof fn rows_come_oldest_first(
    time: TimeColumn,
    table: StatisticsTable,
    value: ValueColumn,
    from: Option<i64>,
    to: Option<i64>,
)
    ensures
        ({
            let sql = rows_text(time, table, value, from, to);
            let start = "SELECT \""@ + time.column() + "\", \""@ + value.column() + "\" FROM \""@
                + table.table() + "\" WHERE metadata_id = ?1"@;
            let end = " ORDER BY \""@ + time.column() + "\""@;
            &&& sql.take(start.len() as int) == start
            &&& text::has_suffix(sql, end)
            &&& from is None && to is None ==> sql == start + end
            &&& time is Text ==> sql == start + end
        }),
{
    let sql = rows_text(time, table, value, from, to);
    let start = "SELECT \""@ + time.column() + "\", \""@ + value.column() + "\" FROM \""@
        + table.table() + "\" WHERE metadata_id = ?1"@;
    let end = " ORDER BY \""@ + time.column() + "\""@;
    assert(sql.take(start.len() as int) =~= start);
    assert(sql.skip(sql.len() - end.len()) =~= end);
    if (from is None && to is None) || time is Text {
        assert(window_condition(time, from, to) =~= Seq::<char>::empty());
        assert(sql =~= start + end);
    }
}

/// A scale that was given is used as it is; else a unit of power is converted to watts, and
/// readings in watts or in no known unit are left alone.
pub proof fn known_units_are_converted_to_watts(unit: Option<Seq<char>>)
    ensures
        scale_of(true, unit) is Explicit,
        scale_of(false, None) == WattScale::Thousandths(1_000),
        scale_of(false, unit) is Thousandths,
        unit matches Some(name) && text::trimmed(name) == "W"@ ==> scale_of(false, unit)
            == WattScale::Thousandths(1_000),
        unit matches Some(name) && text::trimmed(name) == "kW"@ ==> scale_of(false, unit)
            == WattScale::Thousandths(1_000_000),
        unit matches Some(name) && text::trimmed(name) == "MW"@ ==> scale_of(false, unit)
            == WattScale::Thousandths(1_000_000_000),
        unit matches Some(name) && text::trimmed(name) == "mW"@ ==> scale_of(false, unit)
            == WattScale::Thousandths(1),
        unit matches Some(name) && text::trimmed(name) != "W"@ && text::trimmed(name) != "kW"@
            && text::trimmed(name) != "MW"@ && text::trimmed(name) != "mW"@ ==> scale_of(
            false,
            unit,
        ) == WattScale::Thousandths(1_000),
{
    reveal_strlit("W");
    reveal_strlit("kW");
    reveal_strlit("MW");
    reveal_strlit("mW");
    assert("mW"@[0] == 'm' && "kW"@[0] == 'k' && "MW"@[0] == 'M' && "W"@[0] == 'W');
}

} // verus!
