//! Making sense of the recorder database layout.
//!
//! Home Assistant has reshaped the recorder schema several times: timestamps moved from
//! text columns (`start`, `last_updated`) to unix epoch floats (`start_ts`,
//! `last_updated_ts`), and `states.entity_id` was replaced by a `metadata_id` foreign key
//! into `states_meta`. Rather than assuming a version, everything here is decided from the
//! tables and columns that are actually there.

use vstd::prelude::*;

use crate::text;
use crate::timeutil;

verus! {

/// A column holding a point in time, and how to read it.
#[derive(Debug, Clone, Copy, PartialEq, Eq)]
pub enum TimeColumn {
    /// Unix epoch seconds, stored as REAL or INTEGER (modern schemas).
    Epoch(&'static str),
    /// UTC timestamp text such as `2023-06-01 12:00:00.000000` (legacy schemas).
    Text(&'static str),
}

impl TimeColumn {
    /// The name of the column.
    pub open spec fn column(self) -> Seq<char> {
        match self {
            TimeColumn::Epoch(name) => name@,
            TimeColumn::Text(name) => name@,
        }
    }

    pub fn name(self) -> (name: &'static str)
        ensures
            name@ == self.column(),
    {
        match self {
            TimeColumn::Epoch(name) => name,
            TimeColumn::Text(name) => name,
        }
    }

    /// True when the column can be compared against unix timestamps in SQL, which lets
    /// the date range filter be pushed down into the query.
    pub fn supports_range_pushdown(self) -> (yes: bool)
        ensures
            yes == (self is Epoch),
    {
        match self {
            TimeColumn::Epoch(_) => true,
            TimeColumn::Text(_) => false,
        }
    }
}

/// Which statistics table to read.
#[derive(Debug, Clone, Copy, PartialEq, Eq)]
pub enum StatisticsTable {
    /// `statistics`: one row per hour, kept for years.
    LongTerm,
    /// `statistics_short_term`: one row per five minutes, kept for ~10 days.
    ShortTerm,
}

impl StatisticsTable {
    /// The name of the table.
    pub open spec fn table(self) -> Seq<char> {
        match self {
            StatisticsTable::LongTerm => "statistics"@,
            StatisticsTable::ShortTerm => "statistics_short_term"@,
        }
    }

    /// How long one row of this table is in effect, in seconds.
    pub open spec fn interval(self) -> int {
        match self {
            StatisticsTable::LongTerm => 3_600,
            StatisticsTable::ShortTerm => 300,
        }
    }

    pub fn table_name(self) -> (name: &'static str)
        ensures
            name@ == self.table(),
    {
        match self {
            StatisticsTable::LongTerm => "statistics",
            StatisticsTable::ShortTerm => "statistics_short_term",
        }
    }

    /// How long one row of this table is in effect, in seconds.
    pub fn interval_seconds(self) -> (seconds: i64)
        ensures
            seconds == self.interval(),
    {
        match self {
            StatisticsTable::LongTerm => 3_600,
            StatisticsTable::ShortTerm => 300,
        }
    }
}

/// Which aggregate of an hour of readings to use.
#[derive(Debug, Clone, Copy, PartialEq, Eq)]
pub enum ValueColumn {
    Mean,
    Min,
    Max,
}

impl ValueColumn {
    /// The name of the column.
    pub open spec fn column(self) -> Seq<char> {
        match self {
            ValueColumn::Mean => "mean"@,
            ValueColumn::Min => "min"@,
            ValueColumn::Max => "max"@,
        }
    }

    pub fn column_name(self) -> (name: &'static str)
        ensures
            name@ == self.column(),
    {
        match self {
            ValueColumn::Mean => "mean",
            ValueColumn::Min => "min",
            ValueColumn::Max => "max",
        }
    }
}

/// How raw states are keyed to an entity.
#[derive(Debug, Clone, Copy, PartialEq, Eq)]
pub enum StatesLayout {
    /// Modern: `states.metadata_id` -> `states_meta.entity_id`.
    MetadataId { time: TimeColumn },
    /// Legacy: `states.entity_id` holds the entity directly.
    InlineEntityId { time: TimeColumn },
}

impl StatesLayout {
    /// The column that says when a state was reported.
    pub open spec fn time_column(self) -> TimeColumn {
        match self {
            StatesLayout::MetadataId { time } => time,
            StatesLayout::InlineEntityId { time } => time,
        }
    }

    pub fn time(self) -> (time: TimeColumn)
        ensures
            time == self.time_column(),
    {
        match self {
            StatesLayout::MetadataId { time } => time,
            StatesLayout::InlineEntityId { time } => time,
        }
    }
}

/// Metadata of a long-term statistic.
#[derive(Debug, PartialEq)]
pub struct StatisticMeta {
    pub metadata_id: i64,
    pub statistic_id: String,
    pub unit: Option<String>,
}

impl Clone for StatisticMeta {
    fn clone(&self) -> (copy: Self)
        ensures
            copy == *self,
    {
        StatisticMeta {
            metadata_id: self.metadata_id,
            statistic_id: self.statistic_id.clone(),
            unit: match &self.unit {
                Some(unit) => Some(unit.clone()),
                None => None,
            },
        }
    }
}

/// Why a table cannot be read.
#[derive(Debug, Clone, Copy, PartialEq, Eq)]
pub enum LayoutError {
    /// The statistics table is not there.
    NoStatistics(StatisticsTable),
    /// The statistics table lacks the column asked for.
    NoValueColumn(StatisticsTable, ValueColumn),
    /// The statistics table has no column that says when a row starts.
    NoStartColumn(StatisticsTable),
    /// There is no `states` table.
    NoStates,
    /// The `states` table has no timestamp column.
    NoStateTime,
    /// The `states` table has no column that says which entity a row belongs to.
    NoStateKey,
}

impl LayoutError {
    /// What to tell the user.
    pub open spec fn text(self) -> Seq<char> {
        match self {
            LayoutError::NoStatistics(table) => "this database has no `"@ + table.table()
                + "` table - it does not look like a Home Assistant recorder database"@,
            LayoutError::NoValueColumn(table, value) => "table `"@ + table.table() + "` has no `"@
                + value.column() + "` column; try a different --stat"@,
            LayoutError::NoStartColumn(table) => "table `"@ + table.table()
                + "` has neither a `start_ts` nor a `start` column"@,
            LayoutError::NoStates => "this database has no `states` table"@,
            LayoutError::NoStateTime => "table `states` has no recognisable timestamp column"@,
            LayoutError::NoStateKey =>
                "table `states` has neither a `metadata_id` nor an `entity_id` column"@,
        }
    }

    /// What to tell the user.
    pub fn message(self) -> (text: String)
        ensures
            text@ == self.text(),
    {
        match self {
            LayoutError::NoStatistics(table) => {
                let mut out: String = String::from_str("this database has no `");
                out.append(table.table_name());
                out.append("` table - it does not look like a Home Assistant recorder database");
                out
            },
            LayoutError::NoValueColumn(table, value) => {
                let mut out: String = String::from_str("table `");
                out.append(table.table_name());
                out.append("` has no `");
                out.append(value.column_name());
                out.append("` column; try a different --stat");
                out
            },
            LayoutError::NoStartColumn(table) => {
                let mut out: String = String::from_str("table `");
                out.append(table.table_name());
                out.append("` has neither a `start_ts` nor a `start` column");
                out
            },
            LayoutError::NoStates => String::from_str("this database has no `states` table"),
            LayoutError::NoStateTime => String::from_str(
                "table `states` has no recognisable timestamp column",
            ),
            LayoutError::NoStateKey => String::from_str(
                "table `states` has neither a `metadata_id` nor an `entity_id` column",
            ),
        }
    }
}

// ---------------------------------------------------------------------------------------
// Tables and columns
// ---------------------------------------------------------------------------------------

/// Whether a column of that name is listed.
pub open spec fn lists_column(columns: Seq<String>, name: Seq<char>) -> bool {
    exists|i: int| 0 <= i < columns.len() && (#[trigger] columns[i])@ == name
}

/// Whether a column of that name is listed.
pub fn has_column(columns: &[String], name: &str) -> (yes: bool)
    ensures
        yes == lists_column(columns@, name@),
{
    let mut i: usize = 0;
    while i < columns.len()
        invariant
            i <= columns@.len(),
            forall|k: int| 0 <= k < i ==> (#[trigger] columns@[k])@ != name@,
        decreases columns@.len() - i,
    {
        if text::same_text(columns[i].as_str(), name) {
            return true;
        }
        i = i + 1;
    }
    false
}

/// The query that lists the columns of a table.
pub fn table_info_query(table: &str) -> (sql: String)
    ensures
        sql@ == "PRAGMA table_info(\""@ + text::without(table@, '"') + "\")"@,
{
    let mut sql: String = String::from_str("PRAGMA table_info(\"");
    sql.append(text::remove_char(table, '"').as_str());
    sql.append("\")");
    sql
}

/// Column names as the recorder's are compared: lower-cased.
pub fn column_names(names: &[String]) -> (columns: Vec<String>)
    ensures
        columns@.len() == names@.len(),
        forall|i: int|
            0 <= i < names@.len() ==> (#[trigger] columns@[i])@ == text::lowered(names@[i]@),
{
    let mut columns: Vec<String> = Vec::new();
    let mut i: usize = 0;
    while i < names.len()
        invariant
            i <= names@.len(),
            columns@.len() == i,
            forall|k: int|
                0 <= k < i ==> (#[trigger] columns@[k])@ == text::lowered(names@[k]@),
        decreases names@.len() - i,
    {
        columns.push(text::to_lower(names[i].as_str()));
        i = i + 1;
    }
    columns
}

/// Whether the candidate at position `i` is the first whose column is listed.
pub open spec fn is_first_available(
    columns: Seq<String>,
    candidates: Seq<TimeColumn>,
    i: int,
) -> bool {
    &&& 0 <= i < candidates.len()
    &&& lists_column(columns, candidates[i].column())
    &&& forall|earlier: int|
        0 <= earlier < i ==> !lists_column(columns, (#[trigger] candidates[earlier]).column())
}

/// Choose the first available timestamp column from a preference list.
pub fn pick_time_column(columns: &[String], candidates: &[TimeColumn]) -> (picked: Option<
    TimeColumn,
>)
    ensures
        match picked {
            Some(column) => exists|i: int| #[trigger]
                is_first_available(columns@, candidates@, i) && candidates@[i] == column,
            None => forall|i: int|
                0 <= i < candidates@.len() ==> !lists_column(
                    columns@,
                    (#[trigger] candidates@[i]).column(),
                ),
        },
{
    let mut i: usize = 0;
    while i < candidates.len()
        invariant
            i <= candidates@.len(),
            forall|earlier: int|
                0 <= earlier < i ==> !lists_column(
                    columns@,
                    (#[trigger] candidates@[earlier]).column(),
                ),
        decreases candidates@.len() - i,
    {
        let candidate: TimeColumn = candidates[i];
        if has_column(columns, candidate.name()) {
            assert(is_first_available(columns@, candidates@, i as int));
            return Some(candidate);
        }
        i = i + 1;
    }
    None
}

/// How a statistics table is read, given whether it exists and which columns it has.
pub open spec fn statistics_reading(
    exists: bool,
    columns: Seq<String>,
    table: StatisticsTable,
    value: ValueColumn,
) -> Result<TimeColumn, LayoutError> {
    if !exists {
        Err(LayoutError::NoStatistics(table))
    } else if !lists_column(columns, value.column()) {
        Err(LayoutError::NoValueColumn(table, value))
    } else if lists_column(columns, "start_ts"@) {
        Ok(TimeColumn::Epoch("start_ts"))
    } else if lists_column(columns, "start"@) {
        Ok(TimeColumn::Text("start"))
    } else {
        Err(LayoutError::NoStartColumn(table))
    }
}

/// Work out how to read a statistics table.
pub fn statistics_layout(
    exists: bool,
    columns: &[String],
    table: StatisticsTable,
    value: ValueColumn,
) -> (layout: Result<TimeColumn, LayoutError>)
    ensures
        layout == statistics_reading(exists, columns@, table, value),
{
    if !exists {
        return Err(LayoutError::NoStatistics(table));
    }
    if !has_column(columns, value.column_name()) {
        return Err(LayoutError::NoValueColumn(table, value));
    }
    let candidates: [TimeColumn; 2] = [TimeColumn::Epoch("start_ts"), TimeColumn::Text("start")];
    proof {
        assert(candidates@[0].column() == "start_ts"@);
        assert(candidates@[1].column() == "start"@);
    }
    match pick_time_column(columns, &candidates) {
        Some(column) => Ok(column),
        None => Err(LayoutError::NoStartColumn(table)),
    }
}

/// How raw states are read, given whether the tables exist and which columns `states` has.
pub open spec fn states_reading(
    exists: bool,
    columns: Seq<String>,
    meta_exists: bool,
) -> Result<StatesLayout, LayoutError> {
    let time = if lists_column(columns, "last_updated_ts"@) {
        Some(TimeColumn::Epoch("last_updated_ts"))
    } else if lists_column(columns, "last_updated"@) {
        Some(TimeColumn::Text("last_updated"))
    } else if lists_column(columns, "last_changed_ts"@) {
        Some(TimeColumn::Epoch("last_changed_ts"))
    } else if lists_column(columns, "last_changed"@) {
        Some(TimeColumn::Text("last_changed"))
    } else {
        None
    };
    if !exists {
        Err(LayoutError::NoStates)
    } else {
        match time {
            None => Err(LayoutError::NoStateTime),
            Some(time) => if lists_column(columns, "metadata_id"@) && meta_exists {
                Ok(StatesLayout::MetadataId { time })
            } else if lists_column(columns, "entity_id"@) {
                Ok(StatesLayout::InlineEntityId { time })
            } else {
                Err(LayoutError::NoStateKey)
            },
        }
    }
}

/// Work out how raw states are stored.
pub fn states_layout(exists: bool, columns: &[String], meta_exists: bool) -> (layout: Result<
    StatesLayout,
    LayoutError,
>)
    ensures
        layout == states_reading(exists, columns@, meta_exists),
{
    if !exists {
        return Err(LayoutError::NoStates);
    }
    let candidates: [TimeColumn; 4] = [
        TimeColumn::Epoch("last_updated_ts"),
        TimeColumn::Text("last_updated"),
        TimeColumn::Epoch("last_changed_ts"),
        TimeColumn::Text("last_changed"),
    ];
    proof {
        assert(candidates@[0].column() == "last_updated_ts"@);
        assert(candidates@[1].column() == "last_updated"@);
        assert(candidates@[2].column() == "last_changed_ts"@);
        assert(candidates@[3].column() == "last_changed"@);
    }
    let time: TimeColumn = match pick_time_column(columns, &candidates) {
        Some(time) => time,
        None => {
            return Err(LayoutError::NoStateTime);
        },
    };
    if has_column(columns, "metadata_id") && meta_exists {
        Ok(StatesLayout::MetadataId { time })
    } else if has_column(columns, "entity_id") {
        Ok(StatesLayout::InlineEntityId { time })
    } else {
        Err(LayoutError::NoStateKey)
    }
}

/// The query that resolves a `statistic_id` to its metadata row, given the columns of
/// `statistics_meta`.
pub fn statistic_query(columns: &[String]) -> (sql: &'static str)
    ensures
        sql@ == if lists_column(columns@, "unit_of_measurement"@) {
            "SELECT id, statistic_id, unit_of_measurement FROM statistics_meta WHERE statistic_id = ?1"@
        } else {
            "SELECT id, statistic_id, NULL FROM statistics_meta WHERE statistic_id = ?1"@
        },
{
    if has_column(columns, "unit_of_measurement") {
        "SELECT id, statistic_id, unit_of_measurement FROM statistics_meta WHERE statistic_id = ?1"
    } else {
        "SELECT id, statistic_id, NULL FROM statistics_meta WHERE statistic_id = ?1"
    }
}

// ---------------------------------------------------------------------------------------
// Suggestions
// ---------------------------------------------------------------------------------------

/// Whether the word at position `i` is the longest: none takes more bytes, and none before it
/// as many.
pub open spec fn is_longest(words: Seq<Seq<char>>, i: int) -> bool {
    &&& 0 <= i < words.len()
    &&& forall|k: int|
        0 <= k < words.len() ==> text::byte_length(#[trigger] words[k]) <= text::byte_length(
            words[i],
        )
    &&& forall|k: int|
        0 <= k < i ==> text::byte_length(#[trigger] words[k]) < text::byte_length(words[i])
}

/// What separates the words of an id.
pub open spec fn word_separators() -> Seq<char> {
    seq!['.', '_', '-', ' ']
}

/// The longest word of an id, the first where several are as long.
pub fn longest_word(id: &str) -> (word: String)
    ensures
        exists|i: int| #[trigger]
            is_longest(text::split(id@, word_separators()), i) && word@ == text::split(
                id@,
                word_separators(),
            )[i],
{
    let separators: [char; 4] = ['.', '_', '-', ' '];
    assert(separators@ =~= word_separators());
    let words: Vec<String> = text::split_text(id, &separators);
    let ghost parts = text::split(id@, word_separators());
    proof {
        text::split_is_never_empty(id@, word_separators());
    }
    let mut best: usize = 0;
    let mut length: usize = text::byte_len(words[0].as_str());
    let mut i: usize = 1;
    while i < words.len()
        invariant
            1 <= i <= words@.len(),
            words@.len() == parts.len(),
            forall|k: int| 0 <= k < words@.len() ==> #[trigger] words@[k]@ == parts[k],
            best < i,
            length == text::byte_length(parts[best as int]),
            forall|k: int| 0 <= k < i ==> text::byte_length(#[trigger] parts[k]) <= length,
            forall|k: int| 0 <= k < best ==> text::byte_length(#[trigger] parts[k]) < length,
        decreases words@.len() - i,
    {
        assert(words@[i as int]@ == parts[i as int]);
        let candidate: usize = text::byte_len(words[i].as_str());
        if candidate > length {
            best = i;
            length = candidate;
        }
        i = i + 1;
    }
    proof {
        assert(words@[best as int]@ == parts[best as int]);
        assert(is_longest(parts, best as int));
    }
    words[best].clone()
}

/// The part of an id after its first dot, if it has one.
pub open spec fn after_dot(id: Seq<char>) -> Option<Seq<char>> {
    if exists|i: int| 0 <= i < id.len() && id[i] == '.' {
        let at = choose|i: int|
            0 <= i < id.len() && id[i] == '.' && forall|k: int| 0 <= k < i ==> id[k] != '.';
        Some(id.skip(at + 1))
    } else {
        None
    }
}

/// The part of an id after its domain (`sensor.`), if it names one.
pub fn without_domain(id: &str) -> (rest: Option<String>)
    ensures
        match rest {
            Some(rest) => after_dot(id@) == Some(rest@),
            None => after_dot(id@) is None,
        },
{
    let chars: Vec<char> = text::characters(id);
    let mut i: usize = 0;
    while i < chars.len()
        invariant
            i <= chars@.len(),
            chars@ == id@,
            forall|k: int| 0 <= k < i ==> chars@[k] != '.',
        decreases chars@.len() - i,
    {
        if chars[i] == '.' {
            proof {
                assert(id@[i as int] == '.');
                let at = choose|i: int|
                    0 <= i < id@.len() && id@[i] == '.' && forall|k: int|
                        0 <= k < i ==> id@[k] != '.';
                assert(0 <= at < id@.len() && id@[at] == '.');
                assert(at == i);
                assert(id@.skip(at + 1) =~= id@.subrange(i + 1, id@.len() as int));
            }
            return Some(text::slice_text(chars.as_slice(), i + 1, chars.len()));
        }
        i = i + 1;
    }
    None
}

/// The part of an id that tells it from others: what follows its domain, or all of it where
/// it names none.
pub open spec fn telling_part(id: Seq<char>) -> Seq<char> {
    match after_dot(id) {
        Some(rest) => rest,
        None => id,
    }
}

/// Whether a list holds the patterns to look for when an id was not found: the id itself,
/// what follows its domain, and a word where that takes at least three bytes.
pub open spec fn are_patterns(patterns: Seq<String>, id: Seq<char>, word: Seq<char>) -> bool {
    let domain: nat = if after_dot(id) is Some {
        1
    } else {
        0
    };
    let wordy: nat = if text::byte_length(word) >= 3 {
        1
    } else {
        0
    };
    &&& patterns.len() == 1 + domain + wordy
    &&& patterns[0]@ == id
    &&& after_dot(id) matches Some(rest) ==> patterns[1]@ == rest
    &&& wordy == 1 ==> patterns.last()@ == word
}

/// The patterns to look for when an id was not found, the most telling first.
///
/// Tries the whole id first, then the part after the domain (`sensor.`), then the
/// longest word in it, so `sensor.solar_power` still finds `sensor.pv_solar_total`. The
/// domain is no word to look for: it has every sensor in common.
pub fn suggestion_patterns(needle: &str) -> (patterns: Vec<String>)
    ensures
        exists|i: int| #[trigger]
            is_longest(text::split(telling_part(needle@), word_separators()), i) && are_patterns(
                patterns@,
                needle@,
                text::split(telling_part(needle@), word_separators())[i],
            ),
{
    let mut patterns: Vec<String> = Vec::new();
    patterns.push(String::from_str(needle));
    let word: String = match without_domain(needle) {
        Some(rest) => {
            let word: String = longest_word(rest.as_str());
            patterns.push(rest);
            word
        },
        None => longest_word(needle),
    };
    let ghost words = text::split(telling_part(needle@), word_separators());
    let ghost at = choose|i: int| #[trigger] is_longest(words, i) && word@ == words[i];
    assert(is_longest(words, at) && word@ == words[at]);
    if text::byte_len(word.as_str()) >= 3 {
        patterns.push(word);
    }
    assert(are_patterns(patterns@, needle@, words[at]));
    patterns
}

/// The query for ids that match a pattern.
pub fn suggestion_query(table: &str, column: &str) -> (sql: String)
    ensures
        sql@ == "SELECT DISTINCT \""@ + column@ + "\" FROM \""@ + table@ + "\" WHERE \""@ + column@
            + "\" LIKE ?1 ORDER BY \""@ + column@ + "\" LIMIT 10"@,
{
    let mut sql: String = String::from_str("SELECT DISTINCT \"");
    sql.append(column);
    sql.append("\" FROM \"");
    sql.append(table);
    sql.append("\" WHERE \"");
    sql.append(column);
    sql.append("\" LIKE ?1 ORDER BY \"");
    sql.append(column);
    sql.append("\" LIMIT 10");
    sql
}

/// The `LIKE` pattern that finds a text anywhere in a value.
pub fn anywhere(pattern: &str) -> (like: String)
    ensures
        like@ == "%"@ + pattern@ + "%"@,
{
    let mut like: String = String::from_str("%");
    like.append(pattern);
    like.append("%");
    like
}

/// Build the "I could not find that entity" message, with suggestions where possible.
pub fn not_found_error(kind: &str, needle: &str, suggestions: &[String]) -> (message: String)
    ensures
        message@ == if suggestions@.len() == 0 {
            "no "@ + kind@ + " named "@ + text::quoted(needle@) + " in this database"@
        } else {
            "no "@ + kind@ + " named "@ + text::quoted(needle@) + " in this database"@
                + "; did you mean one of:\n  "@ + text::joined(suggestions@, "\n  "@)
        },
{
    let mut message: String = String::from_str("no ");
    message.append(kind);
    message.append(" named ");
    message.append(text::quote(needle).as_str());
    message.append(" in this database");
    if suggestions.len() > 0 {
        message.append("; did you mean one of:\n  ");
        message.append(text::join(suggestions, "\n  ").as_str());
    }
    message
}

// ---------------------------------------------------------------------------------------
// Values
// ---------------------------------------------------------------------------------------

/// What one unit is worth in thousandths of a watt, if it is a power unit we know.
pub open spec fn milliwatts_per(unit: Seq<char>) -> Option<u64> {
    let name = text::trimmed(unit);
    if name == "W"@ {
        Some(1_000)
    } else if name == "kW"@ {
        Some(1_000_000)
    } else if name == "MW"@ {
        Some(1_000_000_000)
    } else if name == "mW"@ {
        Some(1)
    } else {
        None
    }
}

/// Factor converting a recorder unit into thousandths of a watt, if it is a power unit we
/// know.
pub fn unit_scale_to_watts(unit: &str) -> (milliwatts: Option<u64>)
    ensures
        milliwatts == milliwatts_per(unit@),
{
    let name: String = text::trim(unit);
    if text::same_text(name.as_str(), "W") {
        Some(1_000)
    } else if text::same_text(name.as_str(), "kW") {
        Some(1_000_000)
    } else if text::same_text(name.as_str(), "MW") {
        Some(1_000_000_000)
    } else if text::same_text(name.as_str(), "mW") {
        Some(1)
    } else {
        None
    }
}

/// A stored value, as far as a point in time can be read from it.
#[derive(Debug, PartialEq)]
pub enum Stored {
    Null,
    Integer(i64),
    /// The whole part of a number below or at it, or nothing where it is not finite.
    Real(Option<i64>),
    Text(String),
    Blob,
}

/// The instant a stored value stands for, if it stands for one.
pub open spec fn timestamp_of(value: Stored) -> Option<i64> {
    match value {
        Stored::Integer(seconds) => Some(seconds),
        Stored::Real(seconds) => seconds,
        Stored::Text(text) => timeutil::ha_datetime(text@),
        Stored::Null => None,
        Stored::Blob => None,
    }
}

/// Interpret a stored timestamp, whatever type the column happens to hold.
pub fn value_to_timestamp(value: &Stored) -> (ts: Option<i64>)
    ensures
        ts == timestamp_of(*value),
{
    match value {
        Stored::Integer(seconds) => Some(*seconds),
        Stored::Real(seconds) => *seconds,
        Stored::Text(text) => timeutil::parse_ha_datetime(text.as_str()),
        Stored::Null => None,
        Stored::Blob => None,
    }
}

// ---------------------------------------------------------------------------------------
// What a layout promises
// ---------------------------------------------------------------------------------------

/// A statistics table is read by a column that it has, by `start_ts` where it has both, and
/// only where it has the value asked for too; each refusal says what is missing.
pub proof fn statistics_are_read_by_columns_that_exist(
    exists: bool,
    columns: Seq<String>,
    table: StatisticsTable,
    value: ValueColumn,
)
    ensures
        ({
            let reading = statistics_reading(exists, columns, table, value);
            let timed = lists_column(columns, "start_ts"@) || lists_column(columns, "start"@);
            &&& reading is Ok <==> exists && timed && lists_column(columns, value.column())
            &&& reading is Ok ==> lists_column(columns, reading->Ok_0.column())
            &&& reading is Ok ==> (reading->Ok_0 is Epoch <==> lists_column(columns, "start_ts"@))
            &&& reading is Ok ==> (reading->Ok_0.column() == if reading->Ok_0 is Epoch {
                "start_ts"@
            } else {
                "start"@
            })
            &&& reading == Err::<TimeColumn, LayoutError>(LayoutError::NoStatistics(table))
                <==> !exists
            &&& reading == Err::<TimeColumn, LayoutError>(LayoutError::NoValueColumn(table, value))
                <==> exists && !lists_column(columns, value.column())
            &&& reading == Err::<TimeColumn, LayoutError>(LayoutError::NoStartColumn(table))
                <==> exists && lists_column(columns, value.column()) && !timed
        }),
{
}

/// Raw states are read by a column that they have: by when they were updated rather than when
/// they changed, and by seconds rather than by text. They are keyed by the metadata where both
/// sides of it are there, else by the entity.
pub proof fn states_are_read_by_columns_that_exist(
    exists: bool,
    columns: Seq<String>,
    meta_exists: bool,
)
    ensures
        ({
            let reading = states_reading(exists, columns, meta_exists);
            let updated = lists_column(columns, "last_updated_ts"@) || lists_column(
                columns,
                "last_updated"@,
            );
            let changed = lists_column(columns, "last_changed_ts"@) || lists_column(
                columns,
                "last_changed"@,
            );
            let by_metadata = meta_exists && lists_column(columns, "metadata_id"@);
            &&& reading is Ok <==> exists && (updated || changed) && (by_metadata || lists_column(
                columns,
                "entity_id"@,
            ))
            &&& reading is Ok ==> {
                let time = reading->Ok_0.time_column();
                &&& lists_column(columns, time.column())
                &&& updated ==> (time.column() == "last_updated_ts"@ || time.column()
                    == "last_updated"@)
                &&& !updated ==> (time.column() == "last_changed_ts"@ || time.column()
                    == "last_changed"@)
                &&& updated ==> (time is Epoch <==> lists_column(columns, "last_updated_ts"@))
                &&& !updated ==> (time is Epoch <==> lists_column(columns, "last_changed_ts"@))
                &&& time is Epoch ==> (time.column() == "last_updated_ts"@ || time.column()
                    == "last_changed_ts"@)
                &&& reading->Ok_0 is MetadataId <==> by_metadata
            }
            &&& reading == Err::<StatesLayout, LayoutError>(LayoutError::NoStates) <==> !exists
            &&& reading == Err::<StatesLayout, LayoutError>(LayoutError::NoStateTime) <==> exists
                && !updated && !changed
        }),
{
}

/// What follows the first dot of an id: in front of it stands a dot, and in front of that none.
pub proof fn domains_end_at_the_first_dot(domain: Seq<char>, rest: Seq<char>)
    requires
        forall|i: int| 0 <= i < domain.len() ==> #[trigger] domain[i] != '.',
    ensures
        after_dot(domain + seq!['.'] + rest) == Some(rest),
        after_dot(domain) is None,
        telling_part(domain + seq!['.'] + rest) == rest,
        telling_part(domain) == domain,
{
    let id = domain + seq!['.'] + rest;
    let n = domain.len() as int;
    assert(id[n] == '.');
    assert forall|k: int| 0 <= k < n implies id[k] != '.' by {
        assert(id[k] == domain[k]);
    }
    let at = choose|i: int|
        0 <= i < id.len() && id[i] == '.' && forall|k: int| 0 <= k < i ==> id[k] != '.';
    assert(0 <= at < id.len() && id[at] == '.' && forall|k: int| 0 <= k < at ==> id[k] != '.');
    assert(at == n);
    assert(id.skip(at + 1) =~= rest);
}

/// A unit of power is worth a thousand of the next smaller ones, whatever white space stands
/// around its name; what is no unit of power is worth nothing.
pub proof fn units_are_worth_what_they_say(unit: Seq<char>)
    ensures
        milliwatts_per("mW"@) == Some(1u64),
        milliwatts_per("W"@)->0 == 1_000 * milliwatts_per("mW"@)->0,
        milliwatts_per("kW"@)->0 == 1_000 * milliwatts_per("W"@)->0,
        milliwatts_per("MW"@)->0 == 1_000 * milliwatts_per("kW"@)->0,
        milliwatts_per(text::trimmed(unit)) == milliwatts_per(unit),
        milliwatts_per(unit) is Some <==> {
            let name = text::trimmed(unit);
            name == "mW"@ || name == "W"@ || name == "kW"@ || name == "MW"@
        },
{
    reveal_strlit("W");
    reveal_strlit("kW");
    reveal_strlit("MW");
    reveal_strlit("mW");
    text::trimming_twice_is_trimming_once(unit);
    plain_words_are_not_trimmed("W"@);
    plain_words_are_not_trimmed("kW"@);
    plain_words_are_not_trimmed("MW"@);
    plain_words_are_not_trimmed("mW"@);
    assert("mW"@[0] == 'm' && "kW"@[0] == 'k' && "MW"@[0] == 'M' && "W"@[0] == 'W');
}

proof fn plain_words_are_not_trimmed(word: Seq<char>)
    requires
        word.len() > 0,
        !text::is_white_space(word[0]),
        !text::is_white_space(word.last()),
    ensures
        text::trimmed(word) == word,
{
}

/// A short-term row stands for five minutes, and twelve of them for the hour of a long-term
/// one.
pub proof fn twelve_short_rows_make_a_long_one()
    ensures
        StatisticsTable::ShortTerm.interval() == 5 * 60,
        StatisticsTable::LongTerm.interval() == 12 * StatisticsTable::ShortTerm.interval(),
{
}

/// The patterns to look for are the id itself, what follows its domain where it names one, and
/// a word where that is long enough, in that order and nothing else.
pub proof fn patterns_come_from_the_id(
    patterns: Seq<String>,
    id: Seq<char>,
    word: Seq<char>,
    i: int,
)
    requires
        are_patterns(patterns, id, word),
        0 <= i < patterns.len(),
    ensures
        patterns[0]@ == id,
        i > 0 ==> (patterns[i]@ == word && text::byte_length(word) >= 3) || (i == 1 && after_dot(
            id,
        ) == Some(patterns[i]@)),
        1 <= patterns.len() <= 3,
        text::byte_length(word) >= 3 ==> patterns[patterns.len() - 1]@ == word,
        after_dot(id) is Some ==> patterns.len() >= 2,
{
}

/// Seconds mean the same however they are stored, text is read as a recorder timestamp, and
/// what is no point in time gives none.
pub proof fn instants_are_read_whatever_holds_them(seconds: i64, written: String)
    ensures
        timestamp_of(Stored::Integer(seconds)) == Some(seconds),
        timestamp_of(Stored::Real(Some(seconds))) == timestamp_of(Stored::Integer(seconds)),
        timestamp_of(Stored::Real(None)) is None,
        timestamp_of(Stored::Null) is None,
        timestamp_of(Stored::Blob) is None,
        timestamp_of(Stored::Text(written)) == timeutil::ha_datetime(text::trimmed(written@)),
{
    timeutil::timestamps_are_read_without_white_space(written@);
}

} // verus!
