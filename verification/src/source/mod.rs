//! Reading power readings out of a copy of `home-assistant_v2.db`.

use vstd::prelude::*;

use crate::model;
use crate::model::Sample;
use crate::source::catalog::Candidate;
use crate::source::schema::{StatisticsTable, ValueColumn};
use crate::text;
use crate::timeutil;
use crate::timeutil::Zone;

pub mod catalog;
pub mod schema;
pub mod states;
pub mod statistics;
pub mod testdb;

verus! {

/// Which recorder table to take the readings from.
#[derive(Debug, Clone, Copy, PartialEq, Eq, Structural)]
pub enum SourceKind {
    /// Pick the table with the most history for this entity.
    Auto,
    /// `statistics`: hourly means, kept for years. The default for month/week views.
    Statistics,
    /// `statistics_short_term`: five minute means, kept for about ten days.
    ShortTerm,
    /// `states`: every reported change, kept for about ten days.
    States,
}

impl SourceKind {
    /// The name of the table.
    pub open spec fn word(self) -> Seq<char> {
        match self {
            SourceKind::Auto => "auto"@,
            SourceKind::Statistics => "statistics"@,
            SourceKind::ShortTerm => "statistics_short_term"@,
            SourceKind::States => "states"@,
        }
    }

    pub fn to_string(&self) -> (word: String)
        ensures
            word@ == self.word(),
    {
        String::from_str(
            match self {
                SourceKind::Auto => "auto",
                SourceKind::Statistics => "statistics",
                SourceKind::ShortTerm => "statistics_short_term",
                SourceKind::States => "states",
            },
        )
    }

    /// The statistics table of this kind, if it is one.
    pub fn statistics_table(&self) -> (table: Option<StatisticsTable>)
        ensures
            table == match *self {
                SourceKind::Statistics => Some(StatisticsTable::LongTerm),
                SourceKind::ShortTerm => Some(StatisticsTable::ShortTerm),
                _ => None,
            },
    {
        match self {
            SourceKind::Statistics => Some(StatisticsTable::LongTerm),
            SourceKind::ShortTerm => Some(StatisticsTable::ShortTerm),
            SourceKind::States => None,
            SourceKind::Auto => None,
        }
    }
}

// ---------------------------------------------------------------------------------------
// Choosing a table
// ---------------------------------------------------------------------------------------

/// What is known so far about the tables of a database and the entity in them.
#[derive(Debug, Clone, Copy, PartialEq, Eq)]
pub struct AutoFacts {
    /// Whether there is a `statistics_meta` table.
    pub statistics_meta: Option<bool>,
    /// Whether the entity is a statistic.
    pub statistic: Option<bool>,
    /// Whether there is a `statistics` table.
    pub long_term: Option<bool>,
    /// How many rows the entity has in it.
    pub long_term_rows: Option<i64>,
    /// Whether there is a `statistics_short_term` table.
    pub short_term: Option<bool>,
    /// How many rows the entity has in it.
    pub short_term_rows: Option<i64>,
    /// Whether there is a `states` table.
    pub states: Option<bool>,
    /// Whether the entity has states.
    pub in_states: Option<bool>,
}

/// Something to find out about a database.
#[derive(Debug, Clone, Copy, PartialEq, Eq)]
pub enum AutoQuestion {
    HasStatisticsMeta,
    IsStatistic,
    HasLongTerm,
    CountLongTerm,
    HasShortTerm,
    CountShortTerm,
    HasStates,
    IsInStates,
}

/// What to do next to choose a table.
#[derive(Debug, Clone, Copy, PartialEq, Eq)]
pub enum AutoStep {
    /// Find this out first.
    Ask(AutoQuestion),
    /// Read this table.
    Read(SourceKind),
    /// There is nothing to read from.
    Nothing,
}

impl AutoFacts {
    /// Before anything was asked.
    pub fn unknown() -> (facts: Self)
        ensures
            facts.answered() == 0,
    {
        AutoFacts {
            statistics_meta: None,
            statistic: None,
            long_term: None,
            long_term_rows: None,
            short_term: None,
            short_term_rows: None,
            states: None,
            in_states: None,
        }
    }

    /// How many questions have been answered.
    pub open spec fn answered(self) -> nat {
        one_if(self.statistics_meta is Some) + one_if(self.statistic is Some) + one_if(
            self.long_term is Some,
        ) + one_if(self.long_term_rows is Some) + one_if(self.short_term is Some) + one_if(
            self.short_term_rows is Some,
        ) + one_if(self.states is Some) + one_if(self.in_states is Some)
    }

    /// Whether a question has been answered.
    pub open spec fn knows(self, question: AutoQuestion) -> bool {
        match question {
            AutoQuestion::HasStatisticsMeta => self.statistics_meta is Some,
            AutoQuestion::IsStatistic => self.statistic is Some,
            AutoQuestion::HasLongTerm => self.long_term is Some,
            AutoQuestion::CountLongTerm => self.long_term_rows is Some,
            AutoQuestion::HasShortTerm => self.short_term is Some,
            AutoQuestion::CountShortTerm => self.short_term_rows is Some,
            AutoQuestion::HasStates => self.states is Some,
            AutoQuestion::IsInStates => self.in_states is Some,
        }
    }
}

/// One where something holds, otherwise nothing.
pub open spec fn one_if(holds: bool) -> nat {
    if holds {
        1
    } else {
        0
    }
}

/// The first of the questions that has not been answered, in the order they matter.
pub open spec fn next_step(facts: AutoFacts) -> AutoStep {
    match facts.statistics_meta {
        None => AutoStep::Ask(AutoQuestion::HasStatisticsMeta),
        Some(false) => states_step(facts),
        Some(true) => match facts.statistic {
            None => AutoStep::Ask(AutoQuestion::IsStatistic),
            Some(false) => states_step(facts),
            Some(true) => long_term_step(facts),
        },
    }
}

/// What comes once the entity is known to be a statistic.
pub open spec fn long_term_step(facts: AutoFacts) -> AutoStep {
    match facts.long_term {
        None => AutoStep::Ask(AutoQuestion::HasLongTerm),
        Some(false) => short_term_step(facts),
        Some(true) => match facts.long_term_rows {
            None => AutoStep::Ask(AutoQuestion::CountLongTerm),
            Some(rows) => if rows > 0 {
                AutoStep::Read(SourceKind::Statistics)
            } else {
                short_term_step(facts)
            },
        },
    }
}

/// What comes once there are no long-term rows.
pub open spec fn short_term_step(facts: AutoFacts) -> AutoStep {
    match facts.short_term {
        None => AutoStep::Ask(AutoQuestion::HasShortTerm),
        Some(false) => states_step(facts),
        Some(true) => match facts.short_term_rows {
            None => AutoStep::Ask(AutoQuestion::CountShortTerm),
            Some(rows) => if rows > 0 {
                AutoStep::Read(SourceKind::ShortTerm)
            } else {
                states_step(facts)
            },
        },
    }
}

/// What comes once there are no statistics rows. Raw states are only worth trying when they
/// actually know the entity.
pub open spec fn states_step(facts: AutoFacts) -> AutoStep {
    match facts.states {
        None => AutoStep::Ask(AutoQuestion::HasStates),
        Some(false) => fallback_step(facts),
        Some(true) => match facts.in_states {
            None => AutoStep::Ask(AutoQuestion::IsInStates),
            Some(true) => AutoStep::Read(SourceKind::States),
            Some(false) => fallback_step(facts),
        },
    }
}

/// What comes once nothing knows the entity: a table that can at least say so.
pub open spec fn fallback_step(facts: AutoFacts) -> AutoStep {
    match facts.long_term {
        None => AutoStep::Ask(AutoQuestion::HasLongTerm),
        Some(true) => AutoStep::Read(SourceKind::Statistics),
        Some(false) => if facts.states == Some(true) {
            AutoStep::Read(SourceKind::States)
        } else {
            AutoStep::Nothing
        },
    }
}

/// Prefer the table that holds the most history: long-term statistics, then short-term
/// statistics, then raw states.
///
/// Rows that carry no usable value still stop the search: falling through to `states` for a
/// cumulative counter would plot a climbing kWh total as if it were watts, so a statistic
/// that exists but carries no usable values is left for the caller to explain rather than
/// routed around.
pub fn resolve_auto(facts: &AutoFacts) -> (step: AutoStep)
    ensures
        step == next_step(*facts),
{
    match facts.statistics_meta {
        None => AutoStep::Ask(AutoQuestion::HasStatisticsMeta),
        Some(false) => resolve_states(facts),
        Some(true) => match facts.statistic {
            None => AutoStep::Ask(AutoQuestion::IsStatistic),
            Some(false) => resolve_states(facts),
            Some(true) => resolve_statistics(facts),
        },
    }
}

fn resolve_statistics(facts: &AutoFacts) -> (step: AutoStep)
    ensures
        step == long_term_step(*facts),
{
    match facts.long_term {
        None => {
            return AutoStep::Ask(AutoQuestion::HasLongTerm);
        },
        Some(true) => match facts.long_term_rows {
            None => {
                return AutoStep::Ask(AutoQuestion::CountLongTerm);
            },
            Some(rows) => if rows > 0 {
                return AutoStep::Read(SourceKind::Statistics);
            },
        },
        Some(false) => {},
    }
    match facts.short_term {
        None => {
            return AutoStep::Ask(AutoQuestion::HasShortTerm);
        },
        Some(true) => match facts.short_term_rows {
            None => {
                return AutoStep::Ask(AutoQuestion::CountShortTerm);
            },
            Some(rows) => if rows > 0 {
                return AutoStep::Read(SourceKind::ShortTerm);
            },
        },
        Some(false) => {},
    }
    resolve_states(facts)
}

fn resolve_states(facts: &AutoFacts) -> (step: AutoStep)
    ensures
        step == states_step(*facts),
{
    match facts.states {
        None => {
            return AutoStep::Ask(AutoQuestion::HasStates);
        },
        Some(true) => match facts.in_states {
            None => {
                return AutoStep::Ask(AutoQuestion::IsInStates);
            },
            Some(true) => {
                return AutoStep::Read(SourceKind::States);
            },
            Some(false) => {},
        },
        Some(false) => {},
    }
    match facts.long_term {
        None => AutoStep::Ask(AutoQuestion::HasLongTerm),
        Some(true) => AutoStep::Read(SourceKind::Statistics),
        Some(false) => match facts.states {
            Some(true) => AutoStep::Read(SourceKind::States),
            _ => AutoStep::Nothing,
        },
    }
}

/// Only what is not known yet is ever asked, so the search ends after at most as many
/// answers as there are questions; and it never ends on a table left to choose.
pub proof fn the_search_makes_progress(facts: AutoFacts)
    ensures
        next_step(facts) matches AutoStep::Ask(question) ==> !facts.knows(question),
        facts.answered() == 8 ==> !(next_step(facts) is Ask),
        next_step(facts) != AutoStep::Read(SourceKind::Auto),
{
}

/// A statistic with long-term rows is always read from them, whatever else the database
/// holds: a counter is never read from raw states instead.
pub proof fn long_term_rows_are_always_preferred(facts: AutoFacts)
    requires
        facts.statistics_meta == Some(true),
        facts.statistic == Some(true),
        facts.long_term == Some(true),
        facts.long_term_rows matches Some(rows) && rows > 0,
    ensures
        next_step(facts) == AutoStep::Read(SourceKind::Statistics),
{
}

/// What to say of a database without any table to read from.
pub fn nothing_to_read() -> (message: String)
    ensures
        message@ == "this database has no statistics and no states tables to read from"@,
{
    String::from_str("this database has no statistics and no states tables to read from")
}

// ---------------------------------------------------------------------------------------
// What was loaded
// ---------------------------------------------------------------------------------------

/// Samples plus a description of where they came from, for the report header.
#[derive(Debug, PartialEq)]
pub struct LoadedSamples<W> {
    pub samples: Vec<Sample<W>>,
    /// The table actually used, with `Auto` already resolved.
    pub source: SourceKind,
    pub unit: Option<String>,
    pub rows: usize,
    pub first_ts: Option<i64>,
    pub last_ts: Option<i64>,
}

/// The earliest start of any sample.
pub open spec fn earliest_start<W>(samples: Seq<Sample<W>>) -> Option<int>
    decreases samples.len(),
{
    if samples.len() == 0 {
        None
    } else {
        let start = samples.last().start_ts as int;
        match earliest_start(samples.drop_last()) {
            Some(earliest) => Some(model::earlier(earliest, start)),
            None => Some(start),
        }
    }
}

/// The latest end of any sample.
pub open spec fn latest_end<W>(samples: Seq<Sample<W>>) -> Option<int>
    decreases samples.len(),
{
    if samples.len() == 0 {
        None
    } else {
        let end = samples.last().end_ts as int;
        match latest_end(samples.drop_last()) {
            Some(latest) => Some(model::later(latest, end)),
            None => Some(end),
        }
    }
}

/// An instant as a mathematical number.
pub open spec fn instant(ts: Option<i64>) -> Option<int> {
    match ts {
        Some(ts) => Some(ts as int),
        None => None,
    }
}

impl<W> LoadedSamples<W> {
    /// Total observation time behind the samples, in seconds.
    pub fn observed_seconds(&self) -> (seconds: i64)
        requires
            model::total_length(self.samples@) <= i64::MAX,
        ensures
            seconds == model::total_length(self.samples@),
    {
        let mut seconds: i64 = 0;
        let mut i: usize = 0;
        while i < self.samples.len()
            invariant
                i <= self.samples@.len(),
                model::total_length(self.samples@) <= i64::MAX,
                seconds == model::total_length(self.samples@.take(i as int)),
            decreases self.samples@.len() - i,
        {
            proof {
                let now = self.samples@.take(i + 1);
                assert(now.drop_last() =~= self.samples@.take(i as int));
                model::total_length_is_monotone(self.samples@, 0, i as int);
                model::total_length_is_monotone(self.samples@, i + 1, self.samples@.len() as int);
                assert(self.samples@.take(self.samples@.len() as int) =~= self.samples@);
            }
            seconds = seconds + self.samples[i].duration();
            i = i + 1;
        }
        proof {
            assert(self.samples@.take(i as int) =~= self.samples@);
        }
        seconds
    }

    /// The samples of a load together with the span they cover.
    pub fn describe(
        samples: Vec<Sample<W>>,
        source: SourceKind,
        unit: Option<String>,
        rows: usize,
    ) -> (loaded: Self)
        ensures
            loaded.samples == samples,
            loaded.source == source,
            loaded.unit == unit,
            loaded.rows == rows,
            instant(loaded.first_ts) == earliest_start(samples@),
            instant(loaded.last_ts) == latest_end(samples@),
    {
        let mut first_ts: Option<i64> = None;
        let mut last_ts: Option<i64> = None;
        let mut i: usize = 0;
        while i < samples.len()
            invariant
                i <= samples@.len(),
                instant(first_ts) == earliest_start(samples@.take(i as int)),
                instant(last_ts) == latest_end(samples@.take(i as int)),
            decreases samples@.len() - i,
        {
            proof {
                assert(samples@.take(i + 1).drop_last() =~= samples@.take(i as int));
            }
            let (start, end): (i64, i64) = (samples[i].start_ts, samples[i].end_ts);
            first_ts = match first_ts {
                Some(earliest) => if earliest <= start {
                    Some(earliest)
                } else {
                    Some(start)
                },
                None => Some(start),
            };
            last_ts = match last_ts {
                Some(latest) => if latest >= end {
                    Some(latest)
                } else {
                    Some(end)
                },
                None => Some(end),
            };
            i = i + 1;
        }
        proof {
            assert(samples@.take(i as int) =~= samples@);
        }
        LoadedSamples { samples, source, unit, rows, first_ts, last_ts }
    }
}

// ---------------------------------------------------------------------------------------
// Diagnostics
// ---------------------------------------------------------------------------------------

/// The local calendar date of an instant, or `?` where there is none.
pub open spec fn date_text(zone: Seq<char>, ts: int) -> Seq<char> {
    match timeutil::date_of_day(timeutil::local_time_at(zone, ts).parts.day as int) {
        Some(date) => date.iso_text(),
        None => "?"@,
    }
}

/// The local calendar date of an instant, `2025-07-03`.
pub fn local_date(ts: i64, tz: &Zone) -> (date: String)
    ensures
        date@ == date_text(tz@, ts as int),
{
    match timeutil::day_to_date(timeutil::local_day(ts, tz)) {
        Some(date) => date.to_string(),
        None => String::from_str("?"),
    }
}

/// The window that was asked for, in words.
pub open spec fn window_text(from: Option<i64>, to: Option<i64>, zone: Seq<char>) -> Seq<char> {
    match (from, to) {
        (Some(from), Some(to)) => " between "@ + date_text(zone, from as int) + " and "@
            + date_text(zone, to as int),
        (Some(from), None) => " from "@ + date_text(zone, from as int) + " on"@,
        (None, Some(to)) => " before "@ + date_text(zone, to as int),
        (None, None) => Seq::empty(),
    }
}

/// The window that was asked for, in words.
fn describe_window(from: Option<i64>, to: Option<i64>, tz: &Zone) -> (words: String)
    ensures
        words@ == window_text(from, to, tz@),
{
    let mut words: String = String::new();
    match (from, to) {
        (Some(from), Some(to)) => {
            words.append(" between ");
            words.append(local_date(from, tz).as_str());
            words.append(" and ");
            words.append(local_date(to, tz).as_str());
        },
        (Some(from), None) => {
            words.append(" from ");
            words.append(local_date(from, tz).as_str());
            words.append(" on");
        },
        (None, Some(to)) => {
            words.append(" before ");
            words.append(local_date(to, tz).as_str());
        },
        (None, None) => {},
    }
    proof {
        assert(words@ =~= window_text(from, to, tz@));
    }
    words
}

/// What to say of an energy counter that was taken for a power sensor.
pub open spec fn counter_text(
    entity: Seq<char>,
    candidate: Candidate,
    column: Seq<char>,
    hint: Seq<char>,
) -> Seq<char> {
    "`"@ + entity + "` has "@ + text::signed_decimal(candidate.rows as int)
        + " rows in `statistics`, but not one of them carries a `"@ + column
        + "`.\n\nHome Assistant writes `sum` and `state` - not `"@ + column
        + "` - for cumulative counters such as an energy total in kWh, because the average of a running total means nothing. This tool plots instantaneous power, so it needs a sensor measured in W or kW (`state_class: measurement`)."@
        + (match candidate.unit {
        Some(unit) => " Its unit is recorded as `"@ + unit@ + "`."@,
        None => Seq::empty(),
    })
        + " For an energy counter the matching power sensor is usually the same name with `_power` instead of `_energy`."@
        + hint
}

fn explain_counter(entity: &str, candidate: &Candidate, column: &str, hint: &str) -> (message:
    String)
    ensures
        message@ == counter_text(entity@, *candidate, column@, hint@),
{
    let mut unit_words: String = String::new();
    if let Some(unit) = &candidate.unit {
        unit_words.append(" Its unit is recorded as `");
        unit_words.append(unit.as_str());
        unit_words.append("`.");
        proof {
            assert(unit_words@ =~= " Its unit is recorded as `"@ + unit@ + "`."@);
        }
    }
    let mut message: String = String::from_str("`");
    message.append(entity);
    message.append("` has ");
    text::push_signed(&mut message, candidate.rows);
    message.append(" rows in `statistics`, but not one of them carries a `");
    message.append(column);
    message.append("`.\n\nHome Assistant writes `sum` and `state` - not `");
    message.append(column);
    message.append(
        "` - for cumulative counters such as an energy total in kWh, because the average of a running total means nothing. This tool plots instantaneous power, so it needs a sensor measured in W or kW (`state_class: measurement`).",
    );
    message.append(unit_words.as_str());
    message.append(
        " For an energy counter the matching power sensor is usually the same name with `_power` instead of `_energy`.",
    );
    message.append(hint);
    message
}

/// Why a load found no usable readings.
pub open spec fn no_samples_text(
    entity: Seq<char>,
    source: SourceKind,
    value: ValueColumn,
    from: Option<i64>,
    to: Option<i64>,
    known: Option<Candidate>,
    hint: Seq<char>,
    zone: Seq<char>,
) -> Seq<char> {
    match known {
        None => "`"@ + entity + "` has no usable readings in `"@ + source.word() + "`."@ + hint,
        Some(candidate) => if candidate.rows == 0 {
            "`"@ + entity + "` is known to this database but has no statistics rows at all."@ + hint
        } else if !candidate.kind.carries_mean() {
            counter_text(entity, candidate, value.column(), hint)
        } else {
            "`"@ + entity + "` has "@ + text::signed_decimal(candidate.rows as int)
                + " rows in `statistics` covering "@ + catalog::range_text(candidate, zone)
                + ", but none of them are usable"@ + window_text(from, to, zone)
                + ". Widen --from/--to, or drop them entirely."@
        },
    }
}

/// Explain why a load that found no usable readings found none.
///
/// This is where a first run goes wrong, so it is worth being specific: the generic
/// "try a different --source" helps nobody, and the most common cause - pointing at an
/// energy counter rather than a power sensor - has an exact answer.
///
/// The numbers come from the catalogue entry of the entity, if it has one, because a date
/// filter pushed into the query can leave a load without rows while the entity is full of
/// data.
pub fn explain_no_samples(
    entity: &str,
    source: SourceKind,
    value: ValueColumn,
    from: Option<i64>,
    to: Option<i64>,
    known: Option<&Candidate>,
    hint: &str,
    tz: &Zone,
) -> (message: String)
    ensures
        message@ == no_samples_text(
            entity@,
            source,
            value,
            from,
            to,
            match known {
                Some(candidate) => Some(*candidate),
                None => None,
            },
            hint@,
            tz@,
        ),
{
    let mut message: String = String::from_str("`");
    message.append(entity);
    match known {
        // Not a statistic at all: either raw states with nothing usable, or unknown.
        None => {
            message.append("` has no usable readings in `");
            message.append(source.to_string().as_str());
            message.append("`.");
            message.append(hint);
            message
        },
        Some(candidate) => {
            if candidate.rows == 0 {
                message.append("` is known to this database but has no statistics rows at all.");
                message.append(hint);
                return message;
            }
            // Rows exist, but not one carries the column being read - the energy counter case.
            if !candidate.kind.has_mean() {
                return explain_counter(entity, candidate, value.column_name(), hint);
            }
            // It does hold usable values, so the window must have excluded them.
            message.append("` has ");
            text::push_signed(&mut message, candidate.rows);
            message.append(" rows in `statistics` covering ");
            message.append(catalog::date_range(candidate, tz).as_str());
            message.append(", but none of them are usable");
            message.append(describe_window(from, to, tz).as_str());
            message.append(". Widen --from/--to, or drop them entirely.");
            message
        },
    }
}

/// The candidate of exactly that id, the first where several have it.
pub fn find_candidate<'a>(candidates: &'a [Candidate], id: &str) -> (found: Option<&'a Candidate>)
    ensures
        match found {
            Some(candidate) => exists|i: int|
                0 <= i < candidates@.len() && #[trigger] candidates@[i] == *candidate
                    && candidate.statistic_id@ == id@ && forall|k: int|
                    0 <= k < i ==> (#[trigger] candidates@[k]).statistic_id@ != id@,
            None => forall|i: int|
                0 <= i < candidates@.len() ==> (#[trigger] candidates@[i]).statistic_id@ != id@,
        },
{
    let mut i: usize = 0;
    while i < candidates.len()
        invariant
            i <= candidates@.len(),
            forall|k: int| 0 <= k < i ==> (#[trigger] candidates@[k]).statistic_id@ != id@,
        decreases candidates@.len() - i,
    {
        if text::same_text(candidates[i].statistic_id.as_str(), id) {
            return Some(&candidates[i]);
        }
        i = i + 1;
    }
    None
}

/// A table is only read where it is there, rows are only counted in tables that are there, and
/// only where nothing is there to read is nothing read.
pub proof fn only_tables_that_exist_are_touched(facts: AutoFacts)
    ensures
        match next_step(facts) {
            AutoStep::Read(SourceKind::Statistics) => facts.long_term == Some(true),
            AutoStep::Read(SourceKind::ShortTerm) => facts.short_term == Some(true)
                && facts.statistics_meta == Some(true) && facts.statistic == Some(true),
            AutoStep::Read(SourceKind::States) => facts.states == Some(true),
            AutoStep::Read(SourceKind::Auto) => false,
            AutoStep::Nothing => facts.long_term == Some(false) && facts.states == Some(false),
            AutoStep::Ask(AutoQuestion::IsStatistic) => facts.statistics_meta == Some(true),
            AutoStep::Ask(AutoQuestion::CountLongTerm) => facts.long_term == Some(true)
                && facts.statistic == Some(true),
            AutoStep::Ask(AutoQuestion::CountShortTerm) => facts.short_term == Some(true)
                && facts.statistic == Some(true),
            AutoStep::Ask(AutoQuestion::IsInStates) => facts.states == Some(true),
            AutoStep::Ask(_) => true,
        },
{
}

/// Once everything is known the table with the most history is read: long-term statistics
/// where they have rows, else short-term statistics where they do, else raw states where they
/// know the entity; and where nothing knows it, a table that can say so.
pub proof fn the_table_with_the_most_history_is_read(facts: AutoFacts)
    requires
        facts.statistics_meta is Some,
        facts.statistic is Some,
        facts.long_term is Some,
        facts.long_term_rows is Some,
        facts.short_term is Some,
        facts.short_term_rows is Some,
        facts.states is Some,
        facts.in_states is Some,
    ensures
        ({
            let statistic = facts.statistics_meta->0 && facts.statistic->0;
            let long = statistic && facts.long_term->0 && facts.long_term_rows->0 > 0;
            let short = statistic && facts.short_term->0 && facts.short_term_rows->0 > 0;
            let raw = facts.states->0 && facts.in_states->0;
            let step = next_step(facts);
            &&& step == AutoStep::Read(SourceKind::Statistics) <==> long || (!short && !raw
                && facts.long_term->0)
            &&& step == AutoStep::Read(SourceKind::ShortTerm) <==> short && !long
            &&& step == AutoStep::Read(SourceKind::States) <==> !long && !short && (raw || (
            facts.states->0 && !facts.long_term->0))
            &&& step == AutoStep::Nothing <==> !facts.long_term->0 && !facts.states->0 && !short
        }),
{
}

/// The span of samples is tight: none starts before it and none ends behind it, and one of
/// them starts where it does and one ends where it does.
pub proof fn the_span_of_samples_is_tight<W>(samples: Seq<Sample<W>>, i: int) -> (ends: (int, int))
    requires
        0 <= i < samples.len(),
    ensures
        earliest_start(samples) is Some,
        latest_end(samples) is Some,
        earliest_start(samples)->0 <= samples[i].start_ts,
        samples[i].end_ts <= latest_end(samples)->0,
        0 <= ends.0 < samples.len(),
        samples[ends.0].start_ts == earliest_start(samples)->0,
        0 <= ends.1 < samples.len(),
        samples[ends.1].end_ts == latest_end(samples)->0,
    decreases samples.len(),
{
    let last = samples.len() - 1;
    let rest = samples.drop_last();
    if last == 0 {
        assert(earliest_start(rest) is None);
        assert(latest_end(rest) is None);
        (0, 0)
    } else {
        let before = the_span_of_samples_is_tight(
            rest,
            if i < last {
                i
            } else {
                0
            },
        );
        assert(samples[before.0] == rest[before.0]);
        assert(samples[before.1] == rest[before.1]);
        (
            if samples[last].start_ts < samples[before.0].start_ts {
                last
            } else {
                before.0
            },
            if samples[last].end_ts > samples[before.1].end_ts {
                last
            } else {
                before.1
            },
        )
    }
}

/// Without samples there is no span.
pub proof fn nothing_spans_nothing<W>()
    ensures
        earliest_start(Seq::<Sample<W>>::empty()) is None,
        latest_end(Seq::<Sample<W>>::empty()) is None,
{
}

/// An explanation starts with the entity it is about; it ends with the hint at other sensors
/// unless the entity itself has usable readings, and only then speaks of the window.
pub proof fn explanations_are_about_the_entity(
    entity: Seq<char>,
    source: SourceKind,
    value: ValueColumn,
    from: Option<i64>,
    to: Option<i64>,
    known: Option<Candidate>,
    hint: Seq<char>,
    zone: Seq<char>,
)
    ensures
        ({
            let text = no_samples_text(entity, source, value, from, to, known, hint, zone);
            let usable = known is Some && known->0.rows != 0 && (known->0.kind is Mean
                || known->0.kind is Both);
            &&& text.take((entity.len() + 2) as int) == seq!['`'] + entity + seq!['`']
            &&& !usable ==> text::has_suffix(text, hint)
            &&& usable ==> text::contains_text(text, window_text(from, to, zone))
            &&& known is Some && known->0.rows != 0 ==> text::contains_text(
                text,
                text::signed_decimal(known->0.rows as int),
            )
        }),
{
    reveal_strlit("`");
    reveal_strlit("` has ");
    reveal_strlit("` has no usable readings in `");
    reveal_strlit("` is known to this database but has no statistics rows at all.");
    let text = no_samples_text(entity, source, value, from, to, known, hint, zone);
    assert(text.take((entity.len() + 2) as int) =~= seq!['`'] + entity + seq!['`']);
    match known {
        None => {
            assert(text.skip(text.len() - hint.len()) =~= hint);
        },
        Some(candidate) => {
            if candidate.rows == 0 || !candidate.kind.carries_mean() {
                assert(text.skip(text.len() - hint.len()) =~= hint);
            }
            if candidate.rows != 0 {
                let rows = text::signed_decimal(candidate.rows as int);
                let at = (entity.len() + 7) as int;
                assert(text.subrange(at, at + rows.len()) =~= rows);
                assert(text::matches_at(text, rows, at));
                if candidate.kind.carries_mean() {
                    let window = window_text(from, to, zone);
                    let front = "`"@ + entity + "` has "@ + rows
                        + " rows in `statistics` covering "@ + catalog::range_text(
                        candidate,
                        zone,
                    ) + ", but none of them are usable"@;
                    let at = front.len() as int;
                    assert(text.subrange(at, at + window.len()) =~= window);
                    assert(text::matches_at(text, window, at));
                }
            }
        },
    }
}

} // verus!
