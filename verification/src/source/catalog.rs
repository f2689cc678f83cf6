//! What a recorder database actually offers.
//!
//! Home Assistant writes `sum`/`state` and leaves `mean` NULL for a cumulative counter, so
//! an entity can exist, have rows, and still hold nothing to plot. This module answers what
//! is in a database and what can be plotted from the rows themselves rather than from
//! metadata flags, because `has_mean` was replaced by `mean_type` in recent recorder
//! releases and neither is worth trusting.

use vstd::prelude::*;

use crate::source;
use crate::source::schema;
use crate::source::schema::StatisticMeta;
use crate::text;
use crate::timeutil::Zone;

verus! {

/// What the rows of a statistic really carry.
#[derive(Debug, Clone, Copy, PartialEq, Eq)]
pub enum StatisticKind {
    /// Hourly means: a measurement, which can be plotted.
    Mean,
    /// Cumulative totals: an energy counter, which cannot.
    Total,
    /// Both columns are populated.
    Both,
    /// Rows exist but carry neither, or there are no rows at all.
    Empty,
}

impl StatisticKind {
    /// Whether rows of this kind carry means.
    pub open spec fn carries_mean(self) -> bool {
        self is Mean || self is Both
    }

    /// The word for the kind.
    pub open spec fn word(self) -> Seq<char> {
        match self {
            StatisticKind::Mean => "mean"@,
            StatisticKind::Total => "total"@,
            StatisticKind::Both => "mean+total"@,
            StatisticKind::Empty => "empty"@,
        }
    }

    /// The kind of rows of which so many carry a mean and so many a total.
    pub open spec fn of(means: int, sums: int) -> Self {
        if means > 0 && sums > 0 {
            StatisticKind::Both
        } else if means > 0 {
            StatisticKind::Mean
        } else if sums > 0 {
            StatisticKind::Total
        } else {
            StatisticKind::Empty
        }
    }

    /// The kind of rows of which so many carry a mean and so many a total.
    pub fn from_counts(means: i64, sums: i64) -> (kind: Self)
        ensures
            kind == Self::of(means as int, sums as int),
    {
        if means > 0 {
            if sums > 0 {
                StatisticKind::Both
            } else {
                StatisticKind::Mean
            }
        } else if sums > 0 {
            StatisticKind::Total
        } else {
            StatisticKind::Empty
        }
    }

    /// Whether power can be read out of it.
    pub fn has_mean(self) -> (yes: bool)
        ensures
            yes == self.carries_mean(),
    {
        match self {
            StatisticKind::Mean => true,
            StatisticKind::Both => true,
            StatisticKind::Total => false,
            StatisticKind::Empty => false,
        }
    }

    pub fn label(self) -> (label: &'static str)
        ensures
            label@ == self.word(),
    {
        match self {
            StatisticKind::Mean => "mean",
            StatisticKind::Total => "total",
            StatisticKind::Both => "mean+total",
            StatisticKind::Empty => "empty",
        }
    }
}

/// One statistic in the database, with what it holds.
#[derive(Debug, PartialEq)]
pub struct Candidate {
    pub statistic_id: String,
    pub unit: Option<String>,
    pub kind: StatisticKind,
    pub rows: i64,
    pub first_ts: Option<i64>,
    pub last_ts: Option<i64>,
}

impl Clone for Candidate {
    fn clone(&self) -> (copy: Self)
        ensures
            copy == *self,
    {
        Candidate {
            statistic_id: self.statistic_id.clone(),
            unit: match &self.unit {
                Some(unit) => Some(unit.clone()),
                None => None,
            },
            kind: self.kind,
            rows: self.rows,
            first_ts: self.first_ts,
            last_ts: self.last_ts,
        }
    }
}

impl Candidate {
    /// Whether its unit is one that converts to watts.
    pub open spec fn measures_power(self) -> bool {
        match self.unit {
            Some(unit) => schema::milliwatts_per(unit@) is Some,
            None => false,
        }
    }

    /// Whether it can be plotted as it is.
    pub open spec fn plottable(self) -> bool {
        self.kind.carries_mean() && self.measures_power() && self.rows > 0
    }

    /// Whether it counts energy.
    pub open spec fn counts_energy(self) -> bool {
        &&& self.kind is Total || self.kind is Both
        &&& match self.unit {
            Some(unit) => text::has_suffix(text::trimmed(unit@), "Wh"@),
            None => false,
        }
    }

    /// Ranking group: plottable power sensors, then energy counters, then everything else.
    pub open spec fn ranking_group(self) -> usize {
        if self.plottable() {
            0
        } else if self.counts_energy() {
            1
        } else {
            2
        }
    }

    /// The unit as it is listed.
    pub open spec fn unit_text(self) -> Seq<char> {
        match self.unit {
            Some(unit) => unit@,
            None => "-"@,
        }
    }

    /// Whether this is a power sensor that can be plotted straight away.
    pub fn is_plottable(&self) -> (yes: bool)
        ensures
            yes == self.plottable(),
    {
        self.kind.has_mean() && self.is_power_unit() && self.rows > 0
    }

    /// Whether its unit is one that converts to watts.
    pub fn is_power_unit(&self) -> (yes: bool)
        ensures
            yes == self.measures_power(),
    {
        match &self.unit {
            Some(unit) => schema::unit_scale_to_watts(unit.as_str()).is_some(),
            None => false,
        }
    }

    /// Whether it looks like an energy counter rather than a power reading.
    pub fn is_energy_counter(&self) -> (yes: bool)
        ensures
            yes == self.counts_energy(),
    {
        let cumulative = match self.kind {
            StatisticKind::Total => true,
            StatisticKind::Both => true,
            StatisticKind::Mean => false,
            StatisticKind::Empty => false,
        };
        match &self.unit {
            Some(unit) => cumulative && text::ends_with(
                text::trim(unit.as_str()).as_str(),
                "Wh",
            ),
            None => false,
        }
    }

    /// Ranking group: plottable power sensors, then energy counters, then everything else.
    pub fn group(&self) -> (group: usize)
        ensures
            group == self.ranking_group(),
    {
        if self.is_plottable() {
            0
        } else if self.is_energy_counter() {
            1
        } else {
            2
        }
    }

    /// The unit as it is listed.
    fn unit_or_dash(&self) -> (text: &str)
        ensures
            text@ == self.unit_text(),
    {
        match &self.unit {
            Some(unit) => unit.as_str(),
            None => "-",
        }
    }
}

// ---------------------------------------------------------------------------------------
// Ordering
// ---------------------------------------------------------------------------------------

/// Whether one text comes before another, compared character by character.
pub open spec fn text_before(left: Seq<char>, right: Seq<char>) -> bool
    decreases left.len(),
{
    if right.len() == 0 {
        false
    } else if left.len() == 0 {
        true
    } else if left[0] != right[0] {
        left[0] < right[0]
    } else {
        text_before(left.skip(1), right.skip(1))
    }
}

/// Whether one text comes before another.
fn is_text_before(left: &str, right: &str) -> (yes: bool)
    ensures
        yes == text_before(left@, right@),
{
    let a: Vec<char> = text::characters(left);
    let b: Vec<char> = text::characters(right);
    let mut i: usize = 0;
    proof {
        assert(a@.skip(0) =~= left@);
        assert(b@.skip(0) =~= right@);
    }
    while i < a.len() && i < b.len() && a[i] == b[i]
        invariant
            i <= a@.len(),
            i <= b@.len(),
            text_before(left@, right@) == text_before(a@.skip(i as int), b@.skip(i as int)),
        decreases a@.len() - i,
    {
        proof {
            assert(a@.skip(i as int).skip(1) =~= a@.skip(i + 1));
            assert(b@.skip(i as int).skip(1) =~= b@.skip(i + 1));
        }
        i = i + 1;
    }
    if i >= b.len() {
        false
    } else if i >= a.len() {
        true
    } else {
        a[i] < b[i]
    }
}

/// No text comes before itself.
proof fn no_text_precedes_itself(text: Seq<char>)
    ensures
        !text_before(text, text),
    decreases text.len(),
{
    if text.len() > 0 {
        no_text_precedes_itself(text.skip(1));
    }
}

/// The order of texts is transitive.
proof fn text_order_is_transitive(a: Seq<char>, b: Seq<char>, c: Seq<char>)
    requires
        text_before(a, b),
        text_before(b, c),
    ensures
        text_before(a, c),
    decreases a.len(),
{
    if a.len() > 0 && a[0] == b[0] && b[0] == c[0] {
        text_order_is_transitive(a.skip(1), b.skip(1), c.skip(1));
    }
}

/// What a candidate is sorted by: a major number ascending, its rows descending, then a
/// text.
pub struct SortKey {
    pub major: usize,
    pub rows: i64,
    pub id: String,
}

/// Whether one key sorts before another.
pub open spec fn key_before(left: SortKey, right: SortKey) -> bool {
    ||| left.major < right.major
    ||| left.major == right.major && left.rows > right.rows
    ||| left.major == right.major && left.rows == right.rows && text_before(left.id@, right.id@)
}

/// Whether the item at position `a` belongs before the one at position `b`: by key, and in
/// the order they came in where the keys are equal.
pub open spec fn sits_before(keys: Seq<SortKey>, a: int, b: int) -> bool {
    key_before(keys[a], keys[b]) || (!key_before(keys[b], keys[a]) && a < b)
}

/// Whether an ordering lists the first `count` positions once each, in the order of their
/// keys.
pub open spec fn is_ordering(ordering: Seq<usize>, keys: Seq<SortKey>, count: nat) -> bool {
    &&& ordering.len() == count
    &&& forall|i: int| 0 <= i < ordering.len() ==> #[trigger] ordering[i] < count
    &&& forall|i: int, j: int|
        0 <= i < j < ordering.len() ==> sits_before(
            keys,
            #[trigger] ordering[i] as int,
            #[trigger] ordering[j] as int,
        )
}

fn is_key_before(left: &SortKey, right: &SortKey) -> (yes: bool)
    ensures
        yes == key_before(*left, *right),
{
    if left.major != right.major {
        left.major < right.major
    } else if left.rows != right.rows {
        left.rows > right.rows
    } else {
        is_text_before(left.id.as_str(), right.id.as_str())
    }
}

proof fn keys_are_ordered(a: SortKey, b: SortKey, c: SortKey)
    ensures
        !(key_before(a, b) && key_before(b, a)),
        key_before(a, b) && key_before(b, c) ==> key_before(a, c),
{
    no_text_precedes_itself(a.id@);
    if text_before(a.id@, b.id@) && text_before(b.id@, a.id@) {
        text_order_is_transitive(a.id@, b.id@, a.id@);
    }
    if text_before(a.id@, b.id@) && text_before(b.id@, c.id@) {
        text_order_is_transitive(a.id@, b.id@, c.id@);
    }
}

/// The order of items by their keys; items with equal keys keep the order they came in.
fn order_by_keys(keys: &[SortKey]) -> (ordering: Vec<usize>)
    ensures
        is_ordering(ordering@, keys@, keys@.len()),
{
    let mut ordering: Vec<usize> = Vec::new();
    let length: usize = keys.len();
    let mut i: usize = 0;
    while i < length
        invariant
            i <= length,
            length == keys@.len(),
            is_ordering(ordering@, keys@, i as nat),
        decreases length - i,
    {
        let mut at: usize = 0;
        while at < i && !is_key_before(&keys[i], &keys[ordering[at]])
            invariant
                at <= i,
                i < keys@.len(),
                is_ordering(ordering@, keys@, i as nat),
                forall|k: int|
                    0 <= k < at ==> !key_before(
                        keys@[i as int],
                        keys@[#[trigger] ordering@[k] as int],
                    ),
            decreases i - at,
        {
            at = at + 1;
        }
        let ghost before = ordering@;
        ordering.insert(at, i);
        proof {
            inserting_keeps_the_order(before, keys@, i, at as int);
        }
        i = i + 1;
    }
    ordering
}

proof fn inserting_keeps_the_order(ordering: Seq<usize>, keys: Seq<SortKey>, i: usize, at: int)
    requires
        i < keys.len(),
        0 <= at <= i,
        is_ordering(ordering, keys, i as nat),
        forall|k: int|
            0 <= k < at ==> !key_before(keys[i as int], keys[#[trigger] ordering[k] as int]),
        at < i ==> key_before(keys[i as int], keys[ordering[at] as int]),
    ensures
        is_ordering(ordering.insert(at, i), keys, (i + 1) as nat),
{
    let now = ordering.insert(at, i);
    assert forall|k: int| 0 <= k < now.len() implies #[trigger] now[k] < i + 1 by {
        if k < at {
            assert(now[k] == ordering[k]);
        } else if k > at {
            assert(now[k] == ordering[k - 1]);
        }
    }
    assert forall|a: int, b: int| 0 <= a < b < now.len() implies sits_before(
        keys,
        #[trigger] now[a] as int,
        #[trigger] now[b] as int,
    ) by {
        if b < at {
            assert(now[a] == ordering[a] && now[b] == ordering[b]);
        } else if b == at {
            assert(now[a] == ordering[a]);
            assert(ordering[a] < i);
        } else {
            assert(now[b] == ordering[b - 1]);
            let item = keys[i as int];
            let later = keys[ordering[b - 1] as int];
            if a < at {
                assert(now[a] == ordering[a]);
            } else if a == at {
                let next = keys[ordering[at] as int];
                assert(key_before(item, next));
                keys_are_ordered(item, next, later);
                keys_are_ordered(later, item, next);
                if b - 1 > at {
                    assert(sits_before(keys, ordering[at] as int, ordering[b - 1] as int));
                    keys_are_ordered(next, later, next);
                    if !key_before(next, later) {
                        // The two keys are equal as far as the order goes.
                        equal_keys_agree(item, next, later);
                    }
                }
            } else {
                assert(now[a] == ordering[a - 1]);
            }
        }
    }
}

/// A key that sorts before one of two equally placed keys sorts before the other.
proof fn equal_keys_agree(a: SortKey, b: SortKey, c: SortKey)
    requires
        key_before(a, b),
        !key_before(b, c),
        !key_before(c, b),
    ensures
        key_before(a, c),
{
    texts_are_comparable(b.id@, c.id@);
}

/// Of two texts that differ, one comes before the other.
proof fn texts_are_comparable(a: Seq<char>, b: Seq<char>)
    ensures
        text_before(a, b) || text_before(b, a) || a == b,
    decreases a.len(),
{
    if a.len() > 0 && b.len() > 0 && a[0] == b[0] {
        texts_are_comparable(a.skip(1), b.skip(1));
        if a.skip(1) == b.skip(1) {
            assert(a =~= seq![a[0]] + a.skip(1));
            assert(b =~= seq![b[0]] + b.skip(1));
        }
    } else if a.len() == 0 && b.len() == 0 {
        assert(a =~= b);
    }
}

// ---------------------------------------------------------------------------------------
// Listing
// ---------------------------------------------------------------------------------------

/// The query for every statistic, given the columns of `statistics_meta`.
pub fn statistics_query(columns: &[String]) -> (sql: &'static str)
    ensures
        sql@ == if schema::lists_column(columns@, "unit_of_measurement"@) {
            "SELECT id, statistic_id, unit_of_measurement FROM statistics_meta"@
        } else {
            "SELECT id, statistic_id, NULL FROM statistics_meta"@
        },
{
    if schema::has_column(columns, "unit_of_measurement") {
        "SELECT id, statistic_id, unit_of_measurement FROM statistics_meta"
    } else {
        "SELECT id, statistic_id, NULL FROM statistics_meta"
    }
}

/// Whether an id passes a filter: it contains the text, whatever the case of its ASCII
/// letters. A blank filter lets everything through.
pub open spec fn passes(id: Seq<char>, filter: Option<Seq<char>>) -> bool {
    match filter {
        Some(filter) => text::trimmed(filter).len() == 0 || text::contains_text(
            text::lowered(id),
            text::lowered(text::trimmed(filter)),
        ),
        None => true,
    }
}

/// The text a filter asks for.
pub open spec fn filter_text(filter: Option<&str>) -> Option<Seq<char>> {
    match filter {
        Some(filter) => Some(filter@),
        None => None,
    }
}

/// Whether an id passes a filter.
pub fn passes_filter(id: &str, filter: Option<&str>) -> (yes: bool)
    ensures
        yes == passes(id@, filter_text(filter)),
{
    match filter {
        Some(filter) => {
            let wanted: String = text::trim(filter);
            let needle: Vec<char> = text::characters(text::to_lower(wanted.as_str()).as_str());
            if needle.len() == 0 {
                assert(text::trimmed(filter@).len() == 0);
                return true;
            }
            let lowered: Vec<char> = text::characters(text::to_lower(id).as_str());
            text::find(lowered.as_slice(), needle.as_slice()).is_some()
        },
        None => true,
    }
}

/// The statistics whose ids pass a filter.
pub fn keep_matching(metas: &[StatisticMeta], filter: Option<&str>) -> (kept: Vec<StatisticMeta>)
    ensures
        kept@ == metas@.filter(|meta: StatisticMeta| passes(meta.statistic_id@, filter_text(filter))),
{
    let ghost wanted = |meta: StatisticMeta| passes(meta.statistic_id@, filter_text(filter));
    let mut kept: Vec<StatisticMeta> = Vec::new();
    let mut i: usize = 0;
    proof {
        reveal(Seq::filter);
    }
    while i < metas.len()
        invariant
            i <= metas@.len(),
            wanted == (|meta: StatisticMeta| passes(meta.statistic_id@, filter_text(filter))),
            kept@ == metas@.take(i as int).filter(wanted),
        decreases metas@.len() - i,
    {
        proof {
            reveal(Seq::filter);
            assert(metas@.take(i + 1).drop_last() =~= metas@.take(i as int));
        }
        if passes_filter(metas[i].statistic_id.as_str(), filter) {
            kept.push(metas[i].clone());
        }
        i = i + 1;
    }
    proof {
        assert(metas@.take(i as int) =~= metas@);
    }
    kept
}

/// What the rows of one statistic add up to.
#[derive(Debug, Clone, Copy, PartialEq)]
pub struct RowSummary {
    pub rows: i64,
    pub means: i64,
    pub sums: i64,
    pub first_ts: Option<i64>,
    pub last_ts: Option<i64>,
}

/// Numbers in decimal with a comma and a space between neighbours.
pub open spec fn listed(ids: Seq<i64>) -> Seq<char>
    decreases ids.len(),
{
    if ids.len() == 0 {
        Seq::empty()
    } else if ids.len() == 1 {
        text::signed_decimal(ids[0] as int)
    } else {
        listed(ids.drop_last()) + ", "@ + text::signed_decimal(ids.last() as int)
    }
}

/// Numbers in decimal with a comma and a space between neighbours.
fn list_numbers(ids: &[i64]) -> (list: String)
    ensures
        list@ == listed(ids@),
{
    let mut list: String = String::new();
    let mut i: usize = 0;
    while i < ids.len()
        invariant
            i <= ids@.len(),
            list@ == listed(ids@.take(i as int)),
        decreases ids@.len() - i,
    {
        proof {
            assert(ids@.take(i + 1).drop_last() =~= ids@.take(i as int));
        }
        if i > 0 {
            list.append(", ");
        }
        text::push_signed(&mut list, ids[i]);
        i = i + 1;
    }
    proof {
        assert(ids@.take(i as int) =~= ids@);
    }
    list
}

/// More statistics than this are summed up without naming each.
pub const NAMED_STATISTICS: usize = 64;

/// The query that sums up the rows of each statistic.
pub open spec fn summary_text(columns: Seq<String>, ids: Seq<i64>) -> Seq<char> {
    "SELECT metadata_id, COUNT(*), COUNT(mean), COUNT("@ + (if schema::lists_column(
        columns,
        "sum"@,
    ) {
        "sum"@
    } else {
        "NULL"@
    }) + "), MIN(\""@ + start_column(columns) + "\"), MAX(\""@ + start_column(columns)
        + "\") FROM statistics"@ + (if ids.len() <= NAMED_STATISTICS {
        " WHERE metadata_id IN ("@ + listed(ids) + ")"@
    } else {
        Seq::empty()
    }) + " GROUP BY metadata_id"@
}

/// The query that sums up the rows of each statistic, so the kinds come from the data.
///
/// `COUNT(column)` ignores NULLs, which is exactly the question being asked: how many of
/// these rows actually carry a mean, and how many carry a total.
pub fn row_summary(columns: &[String], ids: &[i64]) -> (sql: String)
    ensures
        sql@ == summary_text(columns@, ids@),
{
    let time: &str = if schema::has_column(columns, "start_ts") {
        "start_ts"
    } else {
        "start"
    };
    // Narrow the scan when a filter already picked a handful of entities out.
    let mut restriction: String = String::new();
    if ids.len() <= NAMED_STATISTICS {
        restriction.append(" WHERE metadata_id IN (");
        restriction.append(list_numbers(ids).as_str());
        restriction.append(")");
        proof {
            assert(restriction@ =~= " WHERE metadata_id IN ("@ + listed(ids@) + ")"@);
        }
    }
    let mut sql: String = String::from_str("SELECT metadata_id, COUNT(*), COUNT(mean), COUNT(");
    sql.append(
        if schema::has_column(columns, "sum") {
            "sum"
        } else {
            "NULL"
        },
    );
    sql.append("), MIN(\"");
    sql.append(time);
    sql.append("\"), MAX(\"");
    sql.append(time);
    sql.append("\") FROM statistics");
    sql.append(restriction.as_str());
    sql.append(" GROUP BY metadata_id");
    sql
}

/// The column that says when a row of `statistics` starts.
pub open spec fn start_column(columns: Seq<String>) -> Seq<char> {
    if schema::lists_column(columns, "start_ts"@) {
        "start_ts"@
    } else {
        "start"@
    }
}

/// The summary of one statistic: the last that was given for it, or that of no rows.
pub open spec fn summary_of(summaries: Seq<(i64, RowSummary)>, id: i64) -> RowSummary
    decreases summaries.len(),
{
    if summaries.len() == 0 {
        RowSummary { rows: 0, means: 0, sums: 0, first_ts: None, last_ts: None }
    } else if summaries.last().0 == id {
        summaries.last().1
    } else {
        summary_of(summaries.drop_last(), id)
    }
}

fn find_summary(summaries: &[(i64, RowSummary)], id: i64) -> (summary: RowSummary)
    ensures
        summary == summary_of(summaries@, id),
{
    let mut left: usize = summaries.len();
    proof {
        assert(summaries@.take(left as int) =~= summaries@);
    }
    while left > 0
        invariant
            left <= summaries@.len(),
            summary_of(summaries@, id) == summary_of(summaries@.take(left as int), id),
        decreases left,
    {
        proof {
            assert(summaries@.take(left as int).drop_last() =~= summaries@.take(left - 1));
        }
        if summaries[left - 1].0 == id {
            return summaries[left - 1].1;
        }
        left = left - 1;
    }
    RowSummary { rows: 0, means: 0, sums: 0, first_ts: None, last_ts: None }
}

/// A statistic together with what its rows add up to.
pub open spec fn described(meta: StatisticMeta, summary: RowSummary) -> Candidate {
    Candidate {
        statistic_id: meta.statistic_id,
        unit: meta.unit,
        kind: StatisticKind::of(summary.means as int, summary.sums as int),
        rows: summary.rows,
        first_ts: summary.first_ts,
        last_ts: summary.last_ts,
    }
}

/// Every statistic with what its rows add up to, in the order given.
pub open spec fn all_described(
    metas: Seq<StatisticMeta>,
    summaries: Seq<(i64, RowSummary)>,
) -> Seq<Candidate> {
    metas.map_values(|meta: StatisticMeta| described(meta, summary_of(summaries, meta.metadata_id)))
}

/// What a candidate is ranked by.
pub open spec fn ranking_key(candidate: Candidate) -> SortKey {
    SortKey {
        major: candidate.ranking_group(),
        rows: candidate.rows,
        id: candidate.statistic_id,
    }
}

/// What each candidate is ranked by.
pub open spec fn ranking_keys(candidates: Seq<Candidate>) -> Seq<SortKey> {
    candidates.map_values(|candidate: Candidate| ranking_key(candidate))
}

/// The candidates at the listed positions.
pub open spec fn picked(candidates: Seq<Candidate>, ordering: Seq<usize>) -> Seq<Candidate> {
    ordering.map_values(|i: usize| candidates[i as int])
}

/// Every statistic, best candidates first: by group, then those with more rows, then by id.
pub fn list_statistics(metas: &[StatisticMeta], summaries: &[(i64, RowSummary)]) -> (candidates: Vec<
    Candidate,
>)
    ensures
        exists|ordering: Seq<usize>| #[trigger]
            is_ordering(
                ordering,
                ranking_keys(all_described(metas@, summaries@)),
                metas@.len(),
            ) && candidates@ == picked(all_described(metas@, summaries@), ordering),
{
    let ghost all = all_described(metas@, summaries@);
    let mut unordered: Vec<Candidate> = Vec::new();
    let mut keys: Vec<SortKey> = Vec::new();
    let length: usize = metas.len();
    let mut i: usize = 0;
    while i < length
        invariant
            i <= length,
            length == metas@.len(),
            all == all_described(metas@, summaries@),
            unordered@ == all.take(i as int),
            keys@ == ranking_keys(all.take(i as int)),
        decreases length - i,
    {
        let summary: RowSummary = find_summary(summaries, metas[i].metadata_id);
        let meta: StatisticMeta = metas[i].clone();
        let candidate: Candidate = Candidate {
            statistic_id: meta.statistic_id,
            unit: meta.unit,
            kind: StatisticKind::from_counts(summary.means, summary.sums),
            rows: summary.rows,
            first_ts: summary.first_ts,
            last_ts: summary.last_ts,
        };
        assert(candidate == all[i as int]);
        keys.push(
            SortKey {
                major: candidate.group(),
                rows: candidate.rows,
                id: candidate.statistic_id.clone(),
            },
        );
        unordered.push(candidate);
        i = i + 1;
        proof {
            assert(unordered@ =~= all.take(i as int));
            assert(keys@ =~= ranking_keys(all.take(i as int)));
        }
    }
    proof {
        assert(all.take(i as int) =~= all);
    }
    let ordering: Vec<usize> = order_by_keys(keys.as_slice());
    pick(unordered.as_slice(), ordering.as_slice(), length)
}

/// Copies of the candidates at the first `count` listed positions.
fn pick(candidates: &[Candidate], ordering: &[usize], count: usize) -> (list: Vec<Candidate>)
    requires
        count <= ordering@.len(),
        forall|i: int| 0 <= i < ordering@.len() ==> #[trigger] ordering@[i] < candidates@.len(),
    ensures
        list@ == picked(candidates@, ordering@.take(count as int)),
{
    let mut list: Vec<Candidate> = Vec::new();
    let mut i: usize = 0;
    while i < count
        invariant
            i <= count <= ordering@.len(),
            forall|i: int|
                0 <= i < ordering@.len() ==> #[trigger] ordering@[i] < candidates@.len(),
            list@ == picked(candidates@, ordering@.take(i as int)),
        decreases count - i,
    {
        assert(ordering@[i as int] < candidates@.len());
        list.push(candidates[ordering[i]].clone());
        i = i + 1;
        proof {
            assert(list@ =~= picked(candidates@, ordering@.take(i as int)));
        }
    }
    list
}

// ---------------------------------------------------------------------------------------
// Suggestions
// ---------------------------------------------------------------------------------------

/// How many items two sequences start with in common.
pub open spec fn common_prefix(left: Seq<u8>, right: Seq<u8>) -> nat
    decreases left.len(),
{
    if left.len() > 0 && right.len() > 0 && left[0] == right[0] {
        1 + common_prefix(left.skip(1), right.skip(1))
    } else {
        0
    }
}

/// Length of the common prefix of two ids, in bytes.
pub fn shared_prefix(left: &str, right: &str) -> (length: usize)
    ensures
        length == common_prefix(
            vstd::utf8::encode_utf8(left@),
            vstd::utf8::encode_utf8(right@),
        ),
{
    let a: &[u8] = left.as_bytes();
    let b: &[u8] = right.as_bytes();
    let (m, n): (usize, usize) = (a.len(), b.len());
    let mut i: usize = 0;
    proof {
        assert(a@.skip(0) =~= a@);
        assert(b@.skip(0) =~= b@);
    }
    while i < m && i < n && a[i] == b[i]
        invariant
            m == a@.len(),
            n == b@.len(),
            i <= m,
            i <= n,
            common_prefix(a@, b@) == i + common_prefix(a@.skip(i as int), b@.skip(i as int)),
        decreases m - i,
    {
        proof {
            assert(a@.skip(i as int).skip(1) =~= a@.skip(i + 1));
            assert(b@.skip(i as int).skip(1) =~= b@.skip(i + 1));
        }
        i = i + 1;
    }
    i
}

/// How much of its start a candidate's id shares with the one wanted, whatever the case.
pub open spec fn closeness(wanted: Seq<char>, candidate: Candidate) -> nat {
    common_prefix(
        vstd::utf8::encode_utf8(text::lowered(wanted)),
        vstd::utf8::encode_utf8(text::lowered(candidate.statistic_id@)),
    )
}

/// Whether keys sort candidates by how close they are to the id wanted, then by how many
/// rows they have.
pub open spec fn are_closeness_keys(
    keys: Seq<SortKey>,
    candidates: Seq<Candidate>,
    wanted: Seq<char>,
) -> bool {
    &&& keys.len() == candidates.len()
    &&& forall|i: int|
        0 <= i < keys.len() ==> {
            let key = #[trigger] keys[i];
            &&& key.major == usize::MAX - closeness(wanted, candidates[i])
            &&& key.rows == candidates[i].rows
            &&& key.id@ == Seq::<char>::empty()
        }
}

/// The part of a listing a candidate belongs to.
#[derive(Debug, Clone, Copy, PartialEq, Eq)]
pub enum Section {
    Power,
    Energy,
    Other,
}

impl Section {
    /// Whether a candidate belongs to this part.
    pub open spec fn holds(self, candidate: Candidate) -> bool {
        match self {
            Section::Power => candidate.plottable(),
            Section::Energy => !candidate.plottable() && candidate.counts_energy(),
            Section::Other => !candidate.plottable() && !candidate.counts_energy(),
        }
    }

    /// The candidates of this part, in the order given.
    pub open spec fn of(self, candidates: Seq<Candidate>) -> Seq<Candidate> {
        candidates.filter(|candidate: Candidate| self.holds(candidate))
    }
}

/// The candidates of one part of a listing, in the order given.
pub fn select(candidates: &[Candidate], section: Section) -> (selected: Vec<Candidate>)
    ensures
        selected@ == section.of(candidates@),
{
    let ghost belongs = |candidate: Candidate| section.holds(candidate);
    let mut selected: Vec<Candidate> = Vec::new();
    let mut i: usize = 0;
    proof {
        reveal(Seq::filter);
    }
    while i < candidates.len()
        invariant
            i <= candidates@.len(),
            belongs == (|candidate: Candidate| section.holds(candidate)),
            selected@ == candidates@.take(i as int).filter(belongs),
        decreases candidates@.len() - i,
    {
        proof {
            reveal(Seq::filter);
            assert(candidates@.take(i + 1).drop_last() =~= candidates@.take(i as int));
        }
        let plottable: bool = candidates[i].is_plottable();
        let belongs_here: bool = match section {
            Section::Power => plottable,
            Section::Energy => !plottable && candidates[i].is_energy_counter(),
            Section::Other => !plottable && !candidates[i].is_energy_counter(),
        };
        if belongs_here {
            selected.push(candidates[i].clone());
        }
        i = i + 1;
    }
    proof {
        assert(candidates@.take(i as int) =~= candidates@);
    }
    selected
}

/// Candidates that look like a replacement for `wanted`.
///
/// Entities sharing a prefix come first, so `sensor.eve_energy_x_energy` is answered with
/// `sensor.eve_energy_x_power` rather than with whatever else happens to be in the
/// database.
pub fn closest_power_sensors(candidates: &[Candidate], wanted: &str, limit: usize) -> (closest: Vec<
    Candidate,
>)
    ensures
        are_closest(closest@, candidates@, wanted@, limit as int),
{
    let wanted_lower: String = text::to_lower(wanted);
    let plottable: Vec<Candidate> = select(candidates, Section::Power);
    let mut keys: Vec<SortKey> = Vec::new();
    let mut i: usize = 0;
    while i < plottable.len()
        invariant
            i <= plottable@.len(),
            wanted_lower@ == text::lowered(wanted@),
            are_closeness_keys(keys@, plottable@.take(i as int), wanted@),
        decreases plottable@.len() - i,
    {
        let lower: String = text::to_lower(plottable[i].statistic_id.as_str());
        let ghost before = keys@;
        keys.push(
            SortKey {
                major: usize::MAX - shared_prefix(wanted_lower.as_str(), lower.as_str()),
                rows: plottable[i].rows,
                id: String::new(),
            },
        );
        proof {
            let now = plottable@.take(i + 1);
            assert forall|k: int| 0 <= k < keys@.len() implies {
                let key = #[trigger] keys@[k];
                &&& key.major == usize::MAX - closeness(wanted@, now[k])
                &&& key.rows == now[k].rows
                &&& key.id@ == Seq::<char>::empty()
            } by {
                if k < i {
                    assert(keys@[k] == before[k]);
                    assert(now[k] == plottable@.take(i as int)[k]);
                }
            }
        }
        i = i + 1;
    }
    proof {
        assert(plottable@.take(i as int) =~= plottable@);
    }
    let ordering: Vec<usize> = order_by_keys(keys.as_slice());
    let count: usize = if limit < ordering.len() {
        limit
    } else {
        ordering.len()
    };
    let closest: Vec<Candidate> = pick(plottable.as_slice(), ordering.as_slice(), count);
    proof {
        assert(is_ordering(ordering@, keys@, plottable@.len()));
        assert(are_closeness_keys(keys@, plottable@, wanted@));
    }
    closest
}

/// Whether a list holds the plottable candidates closest to the id wanted, closest first,
/// and no more than `limit` of them.
pub open spec fn are_closest(
    closest: Seq<Candidate>,
    candidates: Seq<Candidate>,
    wanted: Seq<char>,
    limit: int,
) -> bool {
    let plottable = Section::Power.of(candidates);
    let count = if limit < plottable.len() {
        limit
    } else {
        plottable.len() as int
    };
    exists|keys: Seq<SortKey>, ordering: Seq<usize>|
        #![trigger is_ordering(ordering, keys, plottable.len())]
        are_closeness_keys(keys, plottable, wanted) && is_ordering(ordering, keys, plottable.len())
            && closest == picked(plottable, ordering.take(count))
}

/// Only sensors that can be plotted are ever suggested, and no more than asked for.
pub proof fn only_plottable_sensors_are_suggested(
    closest: Seq<Candidate>,
    candidates: Seq<Candidate>,
    wanted: Seq<char>,
    limit: nat,
    i: int,
)
    requires
        are_closest(closest, candidates, wanted, limit as int),
        0 <= i < closest.len(),
    ensures
        closest[i].plottable(),
        candidates.contains(closest[i]),
        closest.len() <= limit,
{
    let plottable = Section::Power.of(candidates);
    let count = if limit < plottable.len() {
        limit as int
    } else {
        plottable.len() as int
    };
    let (keys, ordering) = choose|keys: Seq<SortKey>, ordering: Seq<usize>|
        #![trigger is_ordering(ordering, keys, plottable.len())]
        are_closeness_keys(keys, plottable, wanted) && is_ordering(ordering, keys, plottable.len())
            && closest == picked(plottable, ordering.take(count));
    let belongs = |candidate: Candidate| Section::Power.holds(candidate);
    assert(ordering[i] < plottable.len());
    assert(closest[i] == plottable[ordering[i] as int]);
    candidates.lemma_filter_pred(belongs, ordering[i] as int);
    filtered_items_are_members(candidates, belongs, ordering[i] as int);
}

/// What a filter lets through was there before.
proof fn filtered_items_are_members(
    candidates: Seq<Candidate>,
    belongs: spec_fn(Candidate) -> bool,
    i: int,
)
    requires
        0 <= i < candidates.filter(belongs).len(),
    ensures
        candidates.contains(candidates.filter(belongs)[i]),
    decreases candidates.len(),
{
    reveal(Seq::filter);
    let before = candidates.drop_last();
    if i < before.filter(belongs).len() {
        filtered_items_are_members(before, belongs, i);
        let item = before.filter(belongs)[i];
        let k = choose|k: int| 0 <= k < before.len() && before[k] == item;
        assert(candidates[k] == item);
    } else {
        assert(candidates[candidates.len() - 1] == candidates.last());
    }
}

/// In the list of statistics a better group never comes after a worse one, and of two
/// statistics of one group the one with more rows comes first.
pub proof fn better_candidates_come_first(
    candidates: Seq<Candidate>,
    ordering: Seq<usize>,
    i: int,
    j: int,
)
    requires
        is_ordering(ordering, ranking_keys(candidates), candidates.len()),
        0 <= i < j < ordering.len(),
    ensures
        ({
            let (first, second) = (
                picked(candidates, ordering)[i],
                picked(candidates, ordering)[j],
            );
            &&& first.ranking_group() <= second.ranking_group()
            &&& first.ranking_group() == second.ranking_group() ==> first.rows >= second.rows
        }),
{
    let keys = ranking_keys(candidates);
    assert(sits_before(keys, ordering[i] as int, ordering[j] as int));
    assert(keys[ordering[i] as int] == ranking_key(candidates[ordering[i] as int]));
    assert(keys[ordering[j] as int] == ranking_key(candidates[ordering[j] as int]));
}

// ---------------------------------------------------------------------------------------
// Rendering
// ---------------------------------------------------------------------------------------

/// The local dates a candidate spans.
pub open spec fn range_text(candidate: Candidate, zone: Seq<char>) -> Seq<char> {
    match (candidate.first_ts, candidate.last_ts) {
        (Some(first), Some(last)) => source::date_text(zone, first as int) + " to "@
            + source::date_text(zone, last as int),
        _ => "no rows"@,
    }
}

/// The local dates a candidate spans, for the listing.
pub fn date_range(candidate: &Candidate, tz: &Zone) -> (range: String)
    ensures
        range@ == range_text(*candidate, tz@),
{
    match (candidate.first_ts, candidate.last_ts) {
        (Some(first), Some(last)) => {
            let mut range: String = source::local_date(first, tz);
            range.append(" to ");
            range.append(source::local_date(last, tz).as_str());
            range
        },
        _ => String::from_str("no rows"),
    }
}

/// The larger of two numbers.
pub open spec fn larger(a: nat, b: nat) -> nat {
    if a >= b {
        a
    } else {
        b
    }
}

/// The most bytes an id takes.
pub open spec fn id_width(candidates: Seq<Candidate>) -> nat
    decreases candidates.len(),
{
    if candidates.len() == 0 {
        0
    } else {
        larger(
            id_width(candidates.drop_last()),
            text::byte_length(candidates.last().statistic_id@),
        )
    }
}

/// The most bytes a unit takes.
pub open spec fn unit_width(candidates: Seq<Candidate>) -> nat
    decreases candidates.len(),
{
    if candidates.len() == 0 {
        0
    } else {
        larger(
            unit_width(candidates.drop_last()),
            text::byte_length(candidates.last().unit_text()),
        )
    }
}

/// One line of the table: the id and the unit filled up to their columns' widths, the
/// number of rows right-aligned, and the dates.
pub open spec fn line_text(
    candidate: Candidate,
    ids: nat,
    units: nat,
    zone: Seq<char>,
) -> Seq<char> {
    let rows = text::signed_decimal(candidate.rows as int);
    "  "@ + candidate.statistic_id@ + text::padding(
        candidate.statistic_id@.len() as int,
        ids as int,
    ) + "  "@ + candidate.unit_text() + text::padding(
        candidate.unit_text().len() as int,
        units as int,
    ) + "  "@ + text::padding(rows.len() as int, 7) + rows + " rows  "@ + range_text(
        candidate,
        zone,
    ) + "\n"@
}

/// The lines of the first `count` candidates.
pub open spec fn lines_text(
    candidates: Seq<Candidate>,
    count: nat,
    ids: nat,
    units: nat,
    zone: Seq<char>,
) -> Seq<char>
    decreases count,
{
    if count == 0 {
        Seq::empty()
    } else {
        lines_text(candidates, (count - 1) as nat, ids, units, zone) + line_text(
            candidates[count - 1],
            ids,
            units,
            zone,
        )
    }
}

/// How many candidates of a list are shown: no more than the limit, but at least one.
pub open spec fn shown_count(available: nat, limit: nat) -> nat {
    let most = larger(limit, 1);
    if available < most {
        available
    } else {
        most
    }
}

/// Candidates as an aligned table, capped, with a word on how many were left out.
pub open spec fn table_text(candidates: Seq<Candidate>, zone: Seq<char>, limit: nat) -> Seq<char> {
    let count = shown_count(candidates.len(), limit);
    let shown = candidates.take(count as int);
    let lines = lines_text(shown, count, id_width(shown), unit_width(shown), zone);
    if candidates.len() == 0 {
        "  (none)\n"@
    } else if candidates.len() > count {
        lines + "  ... and "@ + text::decimal((candidates.len() - count) as nat) + " more\n"@
    } else {
        lines
    }
}

/// Append one line of the table.
fn push_line(out: &mut String, candidate: &Candidate, ids: usize, units: usize, tz: &Zone)
    ensures
        final(out)@ == old(out)@ + line_text(*candidate, ids as nat, units as nat, tz@),
{
    let ghost before = out@;
    let mut rows: String = String::new();
    text::push_signed(&mut rows, candidate.rows);
    proof {
        assert(rows@ =~= text::signed_decimal(candidate.rows as int));
    }
    out.append("  ");
    text::push_left_aligned(out, candidate.statistic_id.as_str(), ids);
    out.append("  ");
    text::push_left_aligned(out, candidate.unit_or_dash(), units);
    out.append("  ");
    text::push_right_aligned(out, rows.as_str(), 7);
    out.append(" rows  ");
    out.append(date_range(candidate, tz).as_str());
    out.append("\n");
    proof {
        assert(out@ =~= before + line_text(*candidate, ids as nat, units as nat, tz@));
    }
}

/// Render candidates as an aligned table, grouped and capped.
pub fn format_candidates(candidates: &[Candidate], tz: &Zone, limit: usize) -> (table: String)
    ensures
        table@ == table_text(candidates@, tz@, limit as nat),
{
    let available: usize = candidates.len();
    if available == 0 {
        return String::from_str("  (none)\n");
    }
    let most: usize = if limit > 1 {
        limit
    } else {
        1
    };
    let count: usize = if available < most {
        available
    } else {
        most
    };
    let ghost shown = candidates@.take(count as int);
    let mut ids: usize = 0;
    let mut units: usize = 0;
    let mut i: usize = 0;
    while i < count
        invariant
            i <= count <= candidates@.len(),
            shown == candidates@.take(count as int),
            ids == id_width(shown.take(i as int)),
            units == unit_width(shown.take(i as int)),
        decreases count - i,
    {
        proof {
            assert(shown.take(i + 1).drop_last() =~= shown.take(i as int));
        }
        let id: usize = text::byte_len(candidates[i].statistic_id.as_str());
        if id > ids {
            ids = id;
        }
        let unit: usize = text::byte_len(candidates[i].unit_or_dash());
        if unit > units {
            units = unit;
        }
        i = i + 1;
    }
    proof {
        assert(shown.take(i as int) =~= shown);
    }
    let mut out: String = String::new();
    let mut i: usize = 0;
    while i < count
        invariant
            i <= count <= candidates@.len(),
            shown == candidates@.take(count as int),
            out@ == lines_text(shown, i as nat, ids as nat, units as nat, tz@),
        decreases count - i,
    {
        push_line(&mut out, &candidates[i], ids, units, tz);
        i = i + 1;
    }
    if available > count {
        out.append("  ... and ");
        text::push_number(&mut out, (available - count) as u64);
        out.append(" more\n");
    }
    out
}

/// The whole listing: power sensors, then energy counters and other statistics where there
/// are any.
pub open spec fn listing_text(
    candidates: Seq<Candidate>,
    zone: Seq<char>,
    limit: nat,
) -> Seq<char> {
    let energy = Section::Energy.of(candidates);
    let other = Section::Other.of(candidates);
    "Power sensors this tool can plot:\n"@ + table_text(Section::Power.of(candidates), zone, limit)
        + (if energy.len() > 0 {
        "\nEnergy counters (cumulative totals - not plottable, see the README):\n"@ + table_text(
            energy,
            zone,
            limit,
        )
    } else {
        Seq::empty()
    }) + (if other.len() > 0 {
        "\nOther statistics:\n"@ + table_text(other, zone, limit)
    } else {
        Seq::empty()
    })
}

/// The whole listing printed by `--list-entities`, in sections.
pub fn format_listing(candidates: &[Candidate], tz: &Zone, limit: usize) -> (listing: String)
    ensures
        listing@ == listing_text(candidates@, tz@, limit as nat),
{
    let plottable: Vec<Candidate> = select(candidates, Section::Power);
    let energy: Vec<Candidate> = select(candidates, Section::Energy);
    let other: Vec<Candidate> = select(candidates, Section::Other);
    let mut out: String = String::from_str("Power sensors this tool can plot:\n");
    out.append(format_candidates(plottable.as_slice(), tz, limit).as_str());
    if energy.len() > 0 {
        out.append("\nEnergy counters (cumulative totals - not plottable, see the README):\n");
        out.append(format_candidates(energy.as_slice(), tz, limit).as_str());
    }
    if other.len() > 0 {
        out.append("\nOther statistics:\n");
        out.append(format_candidates(other.as_slice(), tz, limit).as_str());
    }
    proof {
        assert(out@ =~= listing_text(candidates@, tz@, limit as nat));
    }
    out
}

/// What a database holds, appended to an error about an entity, given the sensors closest
/// to the one wanted.
pub open spec fn suggestion_text(closest: Seq<Candidate>, zone: Seq<char>) -> Seq<char> {
    if closest.len() == 0 {
        "\n\nThis database holds no power sensor with hourly statistics at all. Run with --list-entities to see what it does hold."@
    } else {
        "\n\nPower sensors in this database:\n"@ + table_text(closest, zone, 5)
            + "\nRun with --list-entities to see them all."@
    }
}

/// The "here is what this database does hold" block appended to entity errors.
///
/// Every error about an entity ends here, because the useful next step is always the same:
/// see which power sensors exist, ideally the sibling of whatever was asked for.
pub fn suggest_block(candidates: &[Candidate], wanted: &str, tz: &Zone) -> (block: String)
    ensures
        exists|closest: Seq<Candidate>| #[trigger]
            are_closest(closest, candidates@, wanted@, 5) && block@ == suggestion_text(
                closest,
                tz@,
            ),
{
    let closest: Vec<Candidate> = closest_power_sensors(candidates, wanted, 5);
    if closest.len() == 0 {
        String::from_str(
            "\n\nThis database holds no power sensor with hourly statistics at all. Run with --list-entities to see what it does hold.",
        )
    } else {
        let mut block: String = String::from_str("\n\nPower sensors in this database:\n");
        block.append(format_candidates(closest.as_slice(), tz, 5).as_str());
        block.append("\nRun with --list-entities to see them all.");
        block
    }
}

// ---------------------------------------------------------------------------------------
// What a listing says
// ---------------------------------------------------------------------------------------

/// Two texts are ordered by the first character in which they differ, and a text comes before
/// every longer one that starts with it.
pub proof fn the_first_difference_decides(left: Seq<char>, right: Seq<char>, at: int)
    requires
        0 <= at <= left.len(),
        at <= right.len(),
        forall|i: int| 0 <= i < at ==> left[i] == #[trigger] right[i],
        at == left.len() || at == right.len() || left[at] != right[at],
    ensures
        text_before(left, right) <==> at < right.len() && (at == left.len() || left[at]
            < right[at]),
    decreases at,
{
    if at > 0 {
        assert(left[0] == right[0]);
        let (l, r) = (left.skip(1), right.skip(1));
        assert forall|i: int| 0 <= i < at - 1 implies l[i] == #[trigger] r[i] by {
            assert(left[i + 1] == right[i + 1]);
        }
        the_first_difference_decides(l, r, at - 1);
    }
}

/// The common start of two sequences is as long as they agree: they do so all along it, and no
/// longer.
pub proof fn common_starts_are_as_long_as_they_agree(left: Seq<u8>, right: Seq<u8>)
    ensures
        common_prefix(left, right) <= left.len(),
        common_prefix(left, right) <= right.len(),
        forall|i: int| 0 <= i < common_prefix(left, right) ==> left[i] == #[trigger] right[i],
        common_prefix(left, right) < left.len() && common_prefix(left, right) < right.len()
            ==> left[common_prefix(left, right) as int] != right[common_prefix(left, right) as int],
    decreases left.len(),
{
    if left.len() > 0 && right.len() > 0 && left[0] == right[0] {
        let (l, r) = (left.skip(1), right.skip(1));
        common_starts_are_as_long_as_they_agree(l, r);
        let n = common_prefix(left, right);
        assert forall|i: int| 0 <= i < n implies left[i] == #[trigger] right[i] by {
            if i > 0 {
                assert(l[i - 1] == r[i - 1]);
            }
        }
        if n < left.len() && n < right.len() {
            assert(l[n - 1] == left[n as int]);
            assert(r[n - 1] == right[n as int]);
        }
    }
}

/// The summary of a statistic is the last that was given for it; without any it has no rows.
pub proof fn the_last_summary_counts(summaries: Seq<(i64, RowSummary)>, id: i64, i: int)
    ensures
        0 <= i < summaries.len() && summaries[i].0 == id && (forall|k: int|
            i < k < summaries.len() ==> (#[trigger] summaries[k]).0 != id) ==> summary_of(
            summaries,
            id,
        ) == summaries[i].1,
        (forall|k: int| 0 <= k < summaries.len() ==> (#[trigger] summaries[k]).0 != id) ==> {
            let none = summary_of(summaries, id);
            &&& none.rows == 0 && none.means == 0 && none.sums == 0
            &&& none.first_ts is None && none.last_ts is None
        },
    decreases summaries.len(),
{
    if summaries.len() > 0 {
        let rest = summaries.drop_last();
        let last = summaries.len() - 1;
        the_last_summary_counts(rest, id, i);
        assert(summaries.last() == summaries[last]);
        if forall|k: int| 0 <= k < summaries.len() ==> (#[trigger] summaries[k]).0 != id {
            assert(summaries[last].0 != id);
            assert forall|k: int| 0 <= k < rest.len() implies (#[trigger] rest[k]).0 != id by {
                assert(summaries[k].0 != id);
            }
        }
        if 0 <= i < last && summaries[i].0 == id && (forall|k: int|
            i < k < summaries.len() ==> (#[trigger] summaries[k]).0 != id) {
            assert(rest[i].0 == id);
            assert forall|k: int| i < k < rest.len() implies (#[trigger] rest[k]).0 != id by {
                assert(summaries[k].0 != id);
            }
            assert(summaries[last].0 != id);
        }
    }
}

/// A candidate is its statistic with what its rows add up to: it carries means exactly when a
/// row has one, and totals exactly when a row has one.
pub proof fn candidates_are_what_their_rows_say(meta: StatisticMeta, summary: RowSummary)
    ensures
        ({
            let candidate = described(meta, summary);
            &&& candidate.statistic_id == meta.statistic_id
            &&& candidate.unit == meta.unit
            &&& candidate.rows == summary.rows
            &&& candidate.first_ts == summary.first_ts
            &&& candidate.last_ts == summary.last_ts
            &&& (candidate.kind is Mean || candidate.kind is Both) <==> summary.means > 0
            &&& (candidate.kind is Total || candidate.kind is Both) <==> summary.sums > 0
        }),
{
}

/// A power sensor can be plotted when it has rows, they carry means, and its unit is one of
/// power; what counts energy carries totals in a unit that ends with `Wh`.
pub proof fn plottable_sensors_measure_power(candidate: Candidate)
    ensures
        candidate.plottable() <==> candidate.rows > 0 && (candidate.kind is Mean
            || candidate.kind is Both) && (candidate.unit matches Some(unit) && {
            let name = text::trimmed(unit@);
            name == "W"@ || name == "kW"@ || name == "MW"@ || name == "mW"@
        }),
        candidate.counts_energy() <==> (candidate.kind is Total || candidate.kind is Both) && (
        candidate.unit matches Some(unit) && {
            let name = text::trimmed(unit@);
            name.len() >= 2 && name[name.len() - 2] == 'W' && name[name.len() - 1] == 'h'
        }),
{
    reveal_strlit("Wh");
    if let Some(unit) = candidate.unit {
        let name = text::trimmed(unit@);
        if name.len() >= 2 {
            let tail = name.skip(name.len() - 2);
            assert(tail[0] == name[name.len() - 2] && tail[1] == name[name.len() - 1]);
            if name[name.len() - 2] == 'W' && name[name.len() - 1] == 'h' {
                assert(tail =~= "Wh"@);
            }
        }
    }
}

/// Every candidate belongs to exactly one part of a listing, and the parts are ranked in the
/// order they are listed.
pub proof fn every_candidate_has_one_section(candidate: Candidate)
    ensures
        Section::Power.holds(candidate) <==> candidate.ranking_group() == 0,
        Section::Energy.holds(candidate) <==> candidate.ranking_group() == 1,
        Section::Other.holds(candidate) <==> candidate.ranking_group() == 2,
        candidate.ranking_group() <= 2,
        Section::Power.holds(candidate) <==> candidate.plottable(),
        Section::Energy.holds(candidate) <==> !candidate.plottable() && candidate.counts_energy(),
{
}

/// Of two texts that differ one comes before the other, and never both ways.
pub proof fn texts_are_ordered_one_way(left: Seq<char>, right: Seq<char>)
    ensures
        !(text_before(left, right) && text_before(right, left)),
        left != right ==> text_before(left, right) || text_before(right, left),
    decreases left.len(),
{
    if left.len() > 0 && right.len() > 0 && left[0] == right[0] {
        texts_are_ordered_one_way(left.skip(1), right.skip(1));
        if left.skip(1) == right.skip(1) {
            assert forall|i: int| 0 <= i < left.len() && left.len() == right.len() implies left[i]
                == right[i] by {
                if i > 0 {
                    assert(left.skip(1)[i - 1] == right.skip(1)[i - 1]);
                }
            }
            assert(left.len() == right.len());
            assert(left =~= right);
        }
    } else if left.len() == 0 && right.len() == 0 {
        assert(left =~= right);
    }
}

/// Of two statistics of one part with equally many rows the one whose id comes first is listed
/// first.
pub proof fn ties_are_listed_by_id(
    candidates: Seq<Candidate>,
    ordering: Seq<usize>,
    i: int,
    j: int,
)
    requires
        is_ordering(ordering, ranking_keys(candidates), candidates.len()),
        0 <= i < j < ordering.len(),
    ensures
        ({
            let (first, second) = (
                picked(candidates, ordering)[i],
                picked(candidates, ordering)[j],
            );
            first.ranking_group() == second.ranking_group() && first.rows == second.rows
                ==> !text_before(second.statistic_id@, first.statistic_id@)
        }),
{
    let keys = ranking_keys(candidates);
    texts_are_ordered_one_way(
        candidates[ordering[i] as int].statistic_id@,
        candidates[ordering[j] as int].statistic_id@,
    );
    assert(sits_before(keys, ordering[i] as int, ordering[j] as int));
    assert(keys[ordering[i] as int] == ranking_key(candidates[ordering[i] as int]));
    assert(keys[ordering[j] as int] == ranking_key(candidates[ordering[j] as int]));
}

/// Of the sensors suggested the one whose id has more of its start in common with the id
/// wanted comes first, and of two that have as much the one with more rows. There are as many
/// as asked for, or all there are.
pub proof fn closer_sensors_come_first(
    closest: Seq<Candidate>,
    candidates: Seq<Candidate>,
    wanted: Seq<char>,
    limit: nat,
    i: int,
    j: int,
)
    requires
        are_closest(closest, candidates, wanted, limit as int),
        0 <= i < j < closest.len(),
    ensures
        closeness(wanted, closest[i]) >= closeness(wanted, closest[j]),
        closeness(wanted, closest[i]) == closeness(wanted, closest[j]) ==> closest[i].rows
            >= closest[j].rows,
        closest.len() == limit || closest.len() == candidates.filter(
            |candidate: Candidate| candidate.plottable(),
        ).len(),
        closest.len() <= limit,
{
    let plottable = Section::Power.of(candidates);
    let count = if limit < plottable.len() {
        limit as int
    } else {
        plottable.len() as int
    };
    let (keys, ordering) = choose|keys: Seq<SortKey>, ordering: Seq<usize>|
        #![trigger is_ordering(ordering, keys, plottable.len())]
        are_closeness_keys(keys, plottable, wanted) && is_ordering(ordering, keys, plottable.len())
            && closest == picked(plottable, ordering.take(count));
    let shown = ordering.take(count);
    assert(shown[i] == ordering[i] && shown[j] == ordering[j]);
    let (a, b) = (ordering[i] as int, ordering[j] as int);
    assert(sits_before(keys, a, b));
    assert(keys[a].major == usize::MAX - closeness(wanted, plottable[a]));
    assert(keys[b].major == usize::MAX - closeness(wanted, plottable[b]));
    assert(closest[i] == plottable[a]);
    assert(closest[j] == plottable[b]);
    let chosen = |candidate: Candidate| candidate.plottable();
    let held = |candidate: Candidate| Section::Power.holds(candidate);
    assert(chosen =~= held);
}

/// A filter lets an id through exactly when its words, without the white space around them,
/// stand in the id, whatever the case of either.
pub proof fn filters_ignore_case(id: Seq<char>, filter: Seq<char>)
    ensures
        passes(id, None),
        text::trimmed(filter).len() == 0 ==> passes(id, Some(filter)),
        passes(text::lowered(id), Some(filter)) <==> passes(id, Some(filter)),
        passes(id, Some(text::trimmed(filter))) <==> passes(id, Some(filter)),
        text::trimmed(filter).len() > 0 ==> (passes(id, Some(filter)) <==> exists|at: int|
            text::matches_at(text::lowered(id), text::lowered(text::trimmed(filter)), at)),
{
    assert(text::lowered(text::lowered(id)) =~= text::lowered(id));
    text::trimming_twice_is_trimming_once(filter);
}

/// A column is as wide as the widest of what it holds: nothing in it takes more, and
/// something takes as much.
pub proof fn columns_are_as_wide_as_their_widest(candidates: Seq<Candidate>, i: int) -> (widest: (
    int,
    int,
))
    requires
        0 <= i < candidates.len(),
    ensures
        text::byte_length(candidates[i].statistic_id@) <= id_width(candidates),
        text::byte_length(candidates[i].unit_text()) <= unit_width(candidates),
        0 <= widest.0 < candidates.len(),
        text::byte_length(candidates[widest.0].statistic_id@) == id_width(candidates),
        0 <= widest.1 < candidates.len(),
        text::byte_length(candidates[widest.1].unit_text()) == unit_width(candidates),
    decreases candidates.len(),
{
    let last = candidates.len() - 1;
    let rest = candidates.drop_last();
    if last == 0 {
        reveal_with_fuel(id_width, 2);
        reveal_with_fuel(unit_width, 2);
        (0, 0)
    } else {
        let before = columns_are_as_wide_as_their_widest(
            rest,
            if i < last {
                i
            } else {
                0
            },
        );
        assert(candidates[before.0] == rest[before.0]);
        assert(candidates[before.1] == rest[before.1]);
        (
            if text::byte_length(candidates[last].statistic_id@) > id_width(rest) {
                last
            } else {
                before.0
            },
            if text::byte_length(candidates[last].unit_text()) > unit_width(rest) {
                last
            } else {
                before.1
            },
        )
    }
}

/// No more candidates are shown than there are, nor more than asked for, but where there are
/// any at least one; and fewer than there are only where the limit keeps them out.
pub proof fn tables_keep_to_their_limit(available: nat, limit: nat)
    ensures
        shown_count(available, limit) <= available,
        limit >= 1 ==> shown_count(available, limit) <= limit,
        available >= 1 ==> shown_count(available, limit) >= 1,
        shown_count(available, limit) < available ==> shown_count(available, limit) >= limit,
        limit == 0 ==> shown_count(available, limit) <= 1,
{
}

/// A table shows its candidates one to a line, in order, and says how many it leaves out.
pub proof fn tables_say_what_they_leave_out(
    candidates: Seq<Candidate>,
    zone: Seq<char>,
    limit: nat,
)
    requires
        candidates.len() > limit,
        limit >= 1,
    ensures
        text::contains_text(
            table_text(candidates, zone, limit),
            text::decimal((candidates.len() - limit) as nat),
        ),
        text::has_suffix(table_text(candidates, zone, limit), " more\n"@),
{
    let count = shown_count(candidates.len(), limit);
    let shown = candidates.take(count as int);
    let lines = lines_text(shown, count, id_width(shown), unit_width(shown), zone);
    let left = text::decimal((candidates.len() - limit) as nat);
    text::parts_are_contained(lines + "  ... and "@, left, " more\n"@);
}

/// Of a candidate that is shown its id, its unit, the number of its rows and its dates are.
pub proof fn lines_say_what_a_candidate_is(
    candidate: Candidate,
    ids: nat,
    units: nat,
    zone: Seq<char>,
)
    ensures
        ({
            let line = line_text(candidate, ids, units, zone);
            let rows = text::signed_decimal(candidate.rows as int);
            let name = candidate.statistic_id@;
            let unit = candidate.unit_text();
            let unit_at = if name.len() < ids {
                ids + 4
            } else {
                name.len() + 4
            };
            &&& text::matches_at(line, name, 2)
            &&& text::matches_at(line, unit, unit_at as int)
            &&& text::contains_text(line, rows)
            &&& text::contains_text(line, range_text(candidate, zone))
        }),
{
    reveal_strlit("  ");
    reveal_strlit(" rows  ");
    reveal_strlit("\n");
    let line = line_text(candidate, ids, units, zone);
    let rows = text::signed_decimal(candidate.rows as int);
    let name = candidate.statistic_id@;
    let unit = candidate.unit_text();
    let range = range_text(candidate, zone);
    text::padding_is_what_is_missing(name.len() as int, ids as int);
    let first = "  "@ + name + text::padding(name.len() as int, ids as int) + "  "@;
    let second = first + unit + text::padding(unit.len() as int, units as int) + "  "@
        + text::padding(rows.len() as int, 7);
    assert(line.subrange(2, (2 + name.len()) as int) =~= name);
    assert(line.subrange(first.len() as int, (first.len() + unit.len()) as int) =~= unit);
    assert(line.subrange(second.len() as int, (second.len() + rows.len()) as int) =~= rows);
    assert(text::matches_at(line, rows, second.len() as int));
    let at = (second.len() + rows.len() + 7) as int;
    assert(line.subrange(at, at + range.len()) =~= range);
    assert(text::matches_at(line, range, at));
}

/// Up to sixty-four statistics are summed up by name and more of them all together; either
/// way the rows are told apart by their statistic, and dated by the column that is there.
pub proof fn summaries_are_of_the_statistics_asked_for(columns: Seq<String>, ids: Seq<i64>)
    ensures
        ({
            let sql = summary_text(columns, ids);
            let named = " WHERE metadata_id IN ("@ + listed(ids) + ") GROUP BY metadata_id"@;
            let time = if schema::lists_column(columns, "start_ts"@) {
                "start_ts"@
            } else {
                "start"@
            };
            &&& ids.len() <= 64 ==> text::has_suffix(sql, named)
            &&& ids.len() > 64 ==> text::has_suffix(sql, " FROM statistics GROUP BY metadata_id"@)
            &&& text::contains_text(
                sql,
                "MIN(\""@ + time + "\"), MAX(\""@ + time + "\")"@,
            )
            &&& text::contains_text(
                sql,
                if schema::lists_column(columns, "sum"@) {
                    "COUNT(*), COUNT(mean), COUNT(sum)"@
                } else {
                    "COUNT(*), COUNT(mean), COUNT(NULL)"@
                },
            )
        }),
{
    reveal_strlit("SELECT metadata_id, COUNT(*), COUNT(mean), COUNT(");
    reveal_strlit("COUNT(*), COUNT(mean), COUNT(sum)");
    reveal_strlit("COUNT(*), COUNT(mean), COUNT(NULL)");
    reveal_strlit("sum");
    reveal_strlit("NULL");
    reveal_strlit("), MIN(\"");
    reveal_strlit("MIN(\"");
    reveal_strlit("\") FROM statistics");
    reveal_strlit("\")");
    reveal_strlit(")");
    reveal_strlit(" GROUP BY metadata_id");
    reveal_strlit(") GROUP BY metadata_id");
    reveal_strlit(" FROM statistics GROUP BY metadata_id");
    let sql = summary_text(columns, ids);
    let time = start_column(columns);
    let totals = if schema::lists_column(columns, "sum"@) {
        "sum"@
    } else {
        "NULL"@
    };
    let named = " WHERE metadata_id IN ("@ + listed(ids) + ") GROUP BY metadata_id"@;
    if ids.len() <= 64 {
        assert(sql.skip(sql.len() - named.len()) =~= named);
    } else {
        let all = " FROM statistics GROUP BY metadata_id"@;
        assert(sql.skip(sql.len() - all.len()) =~= all);
    }
    let counts = if schema::lists_column(columns, "sum"@) {
        "COUNT(*), COUNT(mean), COUNT(sum)"@
    } else {
        "COUNT(*), COUNT(mean), COUNT(NULL)"@
    };
    assert(sql.subrange(20, 20 + counts.len() as int) =~= counts);
    assert(text::matches_at(sql, counts, 20));
    let dated = "MIN(\""@ + time + "\"), MAX(\""@ + time + "\")"@;
    let at = (49 + totals.len() + 3) as int;
    assert(sql.subrange(at, at + dated.len()) =~= dated);
    assert(text::matches_at(sql, dated, at));
}

/// Numbers are listed in order, with a comma and a space between neighbours.
pub proof fn numbers_are_listed_in_order(ids: Seq<i64>, id: i64)
    ensures
        listed(Seq::<i64>::empty()) == Seq::<char>::empty(),
        listed(seq![id]) == text::signed_decimal(id as int),
        ids.len() > 0 ==> listed(ids.push(id)) == listed(ids) + ", "@ + text::signed_decimal(
            id as int,
        ),
{
    reveal_with_fuel(listed, 2);
    assert(ids.push(id).drop_last() =~= ids);
    assert(seq![id].drop_last() =~= Seq::<i64>::empty());
    assert(listed(seq![id]) =~= text::signed_decimal(id as int));
}

/// A table shows every candidate that it has room for on its own line, and where it has room
/// for all of them nothing else; without any it says so.
pub proof fn tables_show_what_they_have_room_for(
    candidates: Seq<Candidate>,
    zone: Seq<char>,
    limit: nat,
    i: int,
)
    requires
        0 <= i < candidates.len(),
        i < limit,
    ensures
        ({
            let room = if limit < candidates.len() {
                limit as int
            } else {
                candidates.len() as int
            };
            let shown = candidates.take(room);
            let line = line_text(candidates[i], id_width(shown), unit_width(shown), zone);
            &&& text::contains_text(table_text(candidates, zone, limit), line)
            &&& candidates.len() <= limit ==> table_text(candidates, zone, limit) == lines_text(
                shown,
                candidates.len(),
                id_width(shown),
                unit_width(shown),
                zone,
            )
            &&& table_text(Seq::empty(), zone, limit) == "  (none)\n"@
        }),
{
    let count = shown_count(candidates.len(), limit);
    let shown = candidates.take(count as int);
    let (ids, units) = (id_width(shown), unit_width(shown));
    let lines = lines_text(shown, count, ids, units, zone);
    let line = line_text(candidates[i], ids, units, zone);
    assert(shown[i] == candidates[i]);
    every_line_is_shown(shown, count, ids, units, zone, i);
    if candidates.len() > count {
        let rest = "  ... and "@ + text::decimal((candidates.len() - count) as nat) + " more\n"@;
        let empty = Seq::<char>::empty();
        text::more_text_takes_nothing_away(empty, lines, rest, line);
        assert(table_text(candidates, zone, limit) =~= empty + lines + rest);
    }
}

proof fn every_line_is_shown(
    candidates: Seq<Candidate>,
    count: nat,
    ids: nat,
    units: nat,
    zone: Seq<char>,
    i: int,
)
    requires
        0 <= i < count <= candidates.len(),
    ensures
        text::contains_text(
            lines_text(candidates, count, ids, units, zone),
            line_text(candidates[i], ids, units, zone),
        ),
    decreases count,
{
    let last = count - 1;
    let empty = Seq::<char>::empty();
    let before = lines_text(candidates, last as nat, ids, units, zone);
    let more = line_text(candidates[last], ids, units, zone);
    assert(before + more + empty =~= before + more);
    if i < last {
        every_line_is_shown(candidates, last as nat, ids, units, zone, i);
        assert(empty + before + more =~= before + more);
        text::more_text_takes_nothing_away(
            empty,
            before,
            more,
            line_text(candidates[i], ids, units, zone),
        );
    } else {
        text::parts_are_contained(before, more, empty);
    }
}

/// An ordering lists no position twice, and candidates that nothing tells apart stay in the
/// order they came in.
pub proof fn orderings_keep_what_they_cannot_tell_apart(
    ordering: Seq<usize>,
    keys: Seq<SortKey>,
    i: int,
    j: int,
)
    requires
        is_ordering(ordering, keys, keys.len()),
        0 <= i < j < ordering.len(),
    ensures
        ordering[i] != ordering[j],
        ({
            let (a, b) = (keys[ordering[i] as int], keys[ordering[j] as int]);
            &&& a.major <= b.major
            &&& a.major == b.major ==> a.rows >= b.rows
            &&& a.major == b.major && a.rows == b.rows && a.id@ == b.id@ ==> ordering[i]
                < ordering[j]
        }),
{
    let (a, b) = (keys[ordering[i] as int], keys[ordering[j] as int]);
    assert(sits_before(keys, ordering[i] as int, ordering[j] as int));
    texts_are_ordered_one_way(a.id@, b.id@);
    texts_are_ordered_one_way(a.id@, a.id@);
}

/// A part of the listing that is empty is left out, except for the power sensors, which the
/// listing starts with; every other part is listed after its heading.
pub proof fn only_empty_parts_are_left_out(
    candidates: Seq<Candidate>,
    zone: Seq<char>,
    limit: nat,
)
    ensures
        ({
            let listing = listing_text(candidates, zone, limit);
            let power = "Power sensors this tool can plot:\n"@ + table_text(
                Section::Power.of(candidates),
                zone,
                limit,
            );
            let energy = Section::Energy.of(candidates);
            let other = Section::Other.of(candidates);
            &&& listing.take(power.len() as int) == power
            &&& energy.len() == 0 && other.len() == 0 ==> listing == power
            &&& other.len() > 0 ==> text::has_suffix(
                listing,
                "\nOther statistics:\n"@ + table_text(other, zone, limit),
            )
            &&& energy.len() > 0 ==> text::contains_text(
                listing,
                "\nEnergy counters (cumulative totals - not plottable, see the README):\n"@
                    + table_text(energy, zone, limit),
            )
        }),
{
    let listing = listing_text(candidates, zone, limit);
    let power = "Power sensors this tool can plot:\n"@ + table_text(
        Section::Power.of(candidates),
        zone,
        limit,
    );
    let energy = Section::Energy.of(candidates);
    let other = Section::Other.of(candidates);
    assert(listing.take(power.len() as int) =~= power);
    if energy.len() == 0 && other.len() == 0 {
        assert(listing =~= power);
    }
    let last = if other.len() > 0 {
        "\nOther statistics:\n"@ + table_text(other, zone, limit)
    } else {
        Seq::empty()
    };
    assert(listing.skip(listing.len() - last.len()) =~= last);
    if energy.len() > 0 {
        let middle =
            "\nEnergy counters (cumulative totals - not plottable, see the README):\n"@
            + table_text(energy, zone, limit);
        text::parts_are_contained(power, middle, last);
        assert(listing =~= power + middle + last);
    }
}

} // verus!
