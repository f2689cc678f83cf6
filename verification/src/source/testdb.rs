//! Building blocks for synthetic Home Assistant recorder databases: the tables of a current
//! recorder, those of a pre-2023 one, and which days of a history were recorded.

use vstd::prelude::*;

use crate::text;
use crate::timeutil;
use crate::timeutil::{LocalTime, Zone};

verus! {

/// Entity used throughout.
pub const ENTITY: &'static str = "sensor.solar_power";

/// The tables of a current recorder.
pub const MODERN_SCHEMA: &'static str = "
CREATE TABLE statistics_meta (
    id INTEGER PRIMARY KEY,
    statistic_id VARCHAR(255),
    source VARCHAR(32),
    unit_of_measurement VARCHAR(255),
    has_mean BOOLEAN,
    has_sum BOOLEAN,
    name VARCHAR(255)
);
CREATE TABLE statistics (
    id INTEGER PRIMARY KEY,
    created_ts FLOAT,
    metadata_id INTEGER,
    start_ts FLOAT,
    mean FLOAT,
    min FLOAT,
    max FLOAT,
    last_reset_ts FLOAT,
    state FLOAT,
    sum FLOAT
);
CREATE TABLE statistics_short_term (
    id INTEGER PRIMARY KEY,
    created_ts FLOAT,
    metadata_id INTEGER,
    start_ts FLOAT,
    mean FLOAT,
    min FLOAT,
    max FLOAT,
    last_reset_ts FLOAT,
    state FLOAT,
    sum FLOAT
);
CREATE TABLE states_meta (
    metadata_id INTEGER PRIMARY KEY,
    entity_id VARCHAR(255)
);
CREATE TABLE states (
    state_id INTEGER PRIMARY KEY,
    metadata_id INTEGER,
    state VARCHAR(255),
    last_updated_ts FLOAT,
    last_changed_ts FLOAT,
    attributes_id INTEGER
);
";

/// The tables of a recorder from before 2023.
pub const LEGACY_SCHEMA: &'static str = "
CREATE TABLE statistics_meta (
    id INTEGER PRIMARY KEY,
    statistic_id VARCHAR(255),
    source VARCHAR(32),
    unit_of_measurement VARCHAR(255),
    has_mean BOOLEAN,
    has_sum BOOLEAN,
    name VARCHAR(255)
);
CREATE TABLE statistics (
    id INTEGER PRIMARY KEY,
    created DATETIME,
    metadata_id INTEGER,
    start DATETIME,
    mean FLOAT,
    min FLOAT,
    max FLOAT,
    last_reset DATETIME,
    state FLOAT,
    sum FLOAT
);
CREATE TABLE statistics_short_term (
    id INTEGER PRIMARY KEY,
    created DATETIME,
    metadata_id INTEGER,
    start DATETIME,
    mean FLOAT,
    min FLOAT,
    max FLOAT,
    last_reset DATETIME,
    state FLOAT,
    sum FLOAT
);
CREATE TABLE states (
    state_id INTEGER PRIMARY KEY,
    entity_id VARCHAR(255),
    state VARCHAR(255),
    last_updated DATETIME,
    last_changed DATETIME
);
";

/// Which recorder generation to emulate.
#[derive(Debug, Clone, Copy, PartialEq, Eq)]
pub enum Flavour {
    /// Epoch timestamps and `states_meta` (Home Assistant 2023.4 and later).
    Modern,
    /// Text timestamps and `states.entity_id`.
    Legacy,
}

impl Flavour {
    /// The statements that create the recorder tables.
    pub fn schema(self) -> (sql: &'static str)
        ensures
            sql@ == match self {
                Flavour::Modern => MODERN_SCHEMA@,
                Flavour::Legacy => LEGACY_SCHEMA@,
            },
    {
        match self {
            Flavour::Modern => MODERN_SCHEMA,
            Flavour::Legacy => LEGACY_SCHEMA,
        }
    }
}

/// An instant the way legacy recorder schemas stored it.
pub open spec fn utc_text(local: LocalTime) -> Seq<char> {
    timeutil::day_text(local) + seq![' '] + text::two_digits(local.parts.hour as nat) + seq![':']
        + text::two_digits(local.minute as nat) + seq![':'] + text::two_digits(local.second as nat)
        + ".000000"@
}

/// Format a unix timestamp the way legacy recorder schemas stored it.
pub fn format_utc(ts: i64) -> (result: String)
    requires
        timeutil::FIRST_INSTANT <= ts <= timeutil::LAST_INSTANT,
    ensures
        result@ == utc_text(timeutil::local_time_at("UTC"@, ts as int)),
{
    let local: LocalTime = timeutil::local_time(ts, &Zone::utc());
    let mut result: String = String::new();
    timeutil::push_day(&mut result, &local);
    result.push(' ');
    text::push_two_digits(&mut result, local.parts.hour as u64);
    result.push(':');
    text::push_two_digits(&mut result, local.minute as u64);
    result.push(':');
    text::push_two_digits(&mut result, local.second as u64);
    result.append(".000000");
    assert(result@ =~= utc_text(local));
    result
}

/// The unix timestamp of a text that is known to be one.
pub fn ts(text: &str) -> (ts: i64)
    requires
        timeutil::ha_datetime(text@) is Some,
    ensures
        timeutil::ha_datetime(text@) == Some(ts),
{
    timeutil::parse_ha_datetime(text).unwrap()
}

/// The unix timestamps of texts, or `None` where one of them is not a point in time.
pub fn all_ts(texts: &[&str]) -> (instants: Option<Vec<i64>>)
    ensures
        match instants {
            Some(instants) => instants@.len() == texts@.len() && forall|i: int|
                0 <= i < texts@.len() ==> timeutil::ha_datetime((#[trigger] texts@[i])@) == Some(
                    instants@[i],
                ),
            None => exists|i: int|
                0 <= i < texts@.len() && timeutil::ha_datetime((#[trigger] texts@[i])@) is None,
        },
{
    let mut instants: Vec<i64> = Vec::new();
    let mut i: usize = 0;
    while i < texts.len()
        invariant
            i <= texts@.len(),
            instants@.len() == i,
            forall|k: int|
                0 <= k < i ==> timeutil::ha_datetime((#[trigger] texts@[k])@) == Some(instants@[k]),
        decreases texts@.len() - i,
    {
        if timeutil::parse_ha_datetime(texts[i]).is_none() {
            return None;
        }
        instants.push(ts(texts[i]));
        i = i + 1;
    }
    Some(instants)
}

/// Deterministic generator, so synthetic solar years are reproducible without pulling in
/// a random number crate.
pub struct Lcg(u64);

impl Lcg {
    /// Where the generator stands.
    pub closed spec fn state(self) -> u64 {
        self.0
    }

    /// Where a generator stands one step further.
    pub open spec fn following(state: u64) -> u64 {
        ((state * 6_364_136_223_846_793_005 + 1_442_695_040_888_963_407)
            % 0x1_0000_0000_0000_0000) as u64
    }

    pub fn new(seed: u64) -> (generator: Self)
        ensures
            generator.state() == seed,
    {
        Lcg(seed)
    }

    /// The upper 31 bits of the next state.
    pub fn next_u32(&mut self) -> (number: u32)
        ensures
            final(self).state() == Self::following(old(self).state()),
            number == final(self).state() / 0x2_0000_0000,
    {
        let product: u64 = self.0.wrapping_mul(6_364_136_223_846_793_005);
        self.0 = product.wrapping_add(1_442_695_040_888_963_407);
        let state: u64 = self.0;
        proof {
            vstd::arithmetic::div_mod::lemma_add_mod_noop(
                old(self).0 * 6_364_136_223_846_793_005,
                1_442_695_040_888_963_407,
                0x1_0000_0000_0000_0000,
            );
            assert(state >> 33 == state / 0x2_0000_0000) by (bit_vector);
        }
        (state >> 33) as u32
    }
}

/// Which days of a synthetic history the recorder was actually up for.
///
/// Real Home Assistant histories are not solid blocks: restarts, purges and SD card
/// trouble leave holes, and a report has to survive them. The plans here let the tests
/// and the demo database reproduce that on purpose.
#[derive(Debug, Clone)]
pub struct Outages {
    /// Whole days, counted from the start of the run, with no data at all.
    pub missing_days: Vec<i64>,
    /// Half-open ranges of days `[start, end)` with no data at all.
    pub missing_ranges: Vec<(i64, i64)>,
    /// Hours of the day the sensor never reports, e.g. an inverter that sleeps at night.
    pub missing_hours: Vec<i64>,
}

/// Whether a number is listed.
fn is_listed(list: &Vec<i64>, number: i64) -> (yes: bool)
    ensures
        yes == list@.contains(number),
{
    let mut i: usize = 0;
    while i < list.len()
        invariant
            i <= list@.len(),
            forall|k: int| 0 <= k < i ==> list@[k] != number,
        decreases list@.len() - i,
    {
        if list[i] == number {
            return true;
        }
        i = i + 1;
    }
    false
}

/// A third of a number, rounded towards zero.
pub open spec fn third_of(number: int) -> int {
    if number >= 0 {
        number / 3
    } else {
        -((-number) / 3)
    }
}

/// A third of a number, rounded towards zero.
fn third(number: i64) -> (third: i64)
    ensures
        third == third_of(number as int),
{
    if number >= 0 {
        number / 3
    } else if number > -3 {
        0
    } else {
        -((-(number + 3)) / 3) - 1
    }
}

impl Default for Outages {
    /// An unbroken history.
    fn default() -> (plan: Self)
        ensures
            plan.missing_days@.len() == 0,
            plan.missing_ranges@.len() == 0,
            plan.missing_hours@.len() == 0,
    {
        Outages { missing_days: Vec::new(), missing_ranges: Vec::new(), missing_hours: Vec::new() }
    }
}

impl Outages {
    /// Whether a day falls into a range without data.
    pub open spec fn in_missing_range(self, day: int) -> bool {
        exists|i: int|
            0 <= i < self.missing_ranges@.len() && (#[trigger] self.missing_ranges@[i]).0 <= day
                < self.missing_ranges@[i].1
    }

    /// Whether a day of the run carries any data.
    pub open spec fn carries(self, day: i64) -> bool {
        !self.missing_days@.contains(day) && !self.in_missing_range(day as int)
    }

    /// How many of the first `days` days carry data.
    pub open spec fn carried_days(self, days: int) -> nat
        decreases days,
    {
        if days <= 0 {
            0
        } else {
            self.carried_days(days - 1) + if self.carries((days - 1) as i64) {
                1nat
            } else {
                0nat
            }
        }
    }

    /// An unbroken history.
    pub fn none() -> (plan: Self)
        ensures
            plan.missing_days@.len() == 0,
            plan.missing_ranges@.len() == 0,
            plan.missing_hours@.len() == 0,
    {
        Outages::default()
    }

    /// A plausibly messy history: a scattering of lost days and one long outage.
    pub fn spotty(days: i64) -> (plan: Self)
        ensures
            forall|day: i64|
                plan.missing_days@.contains(day) <==> 0 <= day < days && day % 11 == 4,
            forall|i: int, j: int|
                0 <= i < j < plan.missing_days@.len() ==> plan.missing_days@[i]
                    < plan.missing_days@[j],
            plan.missing_ranges@ == seq![
                (third_of(days as int) as i64, (third_of(days as int) + 9) as i64),
            ],
            plan.missing_hours@.len() == 0,
    {
        let mut missing_days: Vec<i64> = Vec::new();
        let mut day: i64 = 0;
        while day < days
            invariant
                0 <= day,
                day <= days || (days < 0 && day == 0),
                forall|d: i64| missing_days@.contains(d) <==> 0 <= d < day && d % 11 == 4,
                forall|i: int| 0 <= i < missing_days@.len() ==> missing_days@[i] < day,
                forall|i: int, j: int|
                    0 <= i < j < missing_days@.len() ==> missing_days@[i] < missing_days@[j],
            decreases days - day,
        {
            let ghost before = missing_days@;
            if day % 11 == 4 {
                missing_days.push(day);
                proof {
                    assert(missing_days@.last() == day);
                    assert forall|d: i64| missing_days@.contains(d) == (before.contains(d) || d
                        == day) by {
                        if before.contains(d) {
                            let k = choose|k: int| 0 <= k < before.len() && before[k] == d;
                            assert(missing_days@[k] == d);
                        }
                        if missing_days@.contains(d) && d != day {
                            let k = choose|k: int|
                                0 <= k < missing_days@.len() && missing_days@[k] == d;
                            assert(before[k] == d);
                        }
                    }
                }
            }
            proof {
                assert forall|d: i64| missing_days@.contains(d) <==> 0 <= d < day + 1 && d % 11
                    == 4 by {
                    assert(before.contains(d) <==> 0 <= d < day && d % 11 == 4);
                }
            }
            day = day + 1;
        }
        let start: i64 = third(days);
        let mut missing_ranges: Vec<(i64, i64)> = Vec::new();
        missing_ranges.push((start, start + 9));
        assert(missing_ranges@ =~= seq![
                (third_of(days as int) as i64, (third_of(days as int) + 9) as i64),
            ]);
        Outages { missing_days, missing_ranges, missing_hours: Vec::new() }
    }

    /// Whether a given day of the run carries any data.
    pub fn covers(&self, day: i64) -> (yes: bool)
        ensures
            yes == self.carries(day),
    {
        if is_listed(&self.missing_days, day) {
            return false;
        }
        let mut i: usize = 0;
        while i < self.missing_ranges.len()
            invariant
                i <= self.missing_ranges@.len(),
                forall|k: int|
                    0 <= k < i ==> !((#[trigger] self.missing_ranges@[k]).0 <= day
                        < self.missing_ranges@[k].1),
            decreases self.missing_ranges@.len() - i,
        {
            let (start, end) = self.missing_ranges[i];
            if start <= day && day < end {
                assert(self.missing_ranges@[i as int].0 <= day);
                return false;
            }
            i = i + 1;
        }
        true
    }

    /// Whether a given hour of the day is ever reported.
    pub fn covers_hour(&self, hour: i64) -> (yes: bool)
        ensures
            yes == !self.missing_hours@.contains(hour),
    {
        !is_listed(&self.missing_hours, hour)
    }

    /// How many of the first `days` days carry data.
    pub fn covered_days(&self, days: i64) -> (count: i64)
        ensures
            count == self.carried_days(days as int),
            count <= days || days < 0,
    {
        let mut count: i64 = 0;
        let mut day: i64 = 0;
        while day < days
            invariant
                0 <= day,
                day <= days || (days < 0 && day == 0),
                count == self.carried_days(day as int),
                0 <= count <= day,
            decreases days - day,
        {
            if self.covers(day) {
                count = count + 1;
            }
            day = day + 1;
        }
        count
    }
}

/// An unbroken history carries data on every day.
pub proof fn an_unbroken_history_loses_no_day(plan: Outages, days: int)
    requires
        plan.missing_days@.len() == 0,
        plan.missing_ranges@.len() == 0,
        days >= 0,
    ensures
        plan.carried_days(days) == days,
    decreases days,
{
    if days > 0 {
        an_unbroken_history_loses_no_day(plan, days - 1);
    }
}

/// A third of a number is a third of it but for what is left over, which is less than three
/// and on the same side of zero.
pub proof fn thirds_leave_less_than_three(number: int)
    ensures
        number >= 0 ==> 0 <= number - 3 * third_of(number) < 3,
        number <= 0 ==> -3 < number - 3 * third_of(number) <= 0,
{
}

/// A day carries data unless it is missing: neither listed nor in a range without data, each
/// of which holds the day it starts with and not the day it ends with.
pub proof fn missing_days_carry_nothing(plan: Outages, day: i64, i: int)
    ensures
        0 <= i < plan.missing_days@.len() && plan.missing_days@[i] == day ==> !plan.carries(day),
        0 <= i < plan.missing_ranges@.len() && plan.missing_ranges@[i].0 <= day
            && day < plan.missing_ranges@[i].1 ==> !plan.carries(day),
        (forall|k: int| 0 <= k < plan.missing_days@.len() ==> #[trigger] plan.missing_days@[k]
            != day) && (forall|k: int|
            0 <= k < plan.missing_ranges@.len() ==> day < (#[trigger] plan.missing_ranges@[k]).0
                || plan.missing_ranges@[k].1 <= day) ==> plan.carries(day),
{
}

/// Days that carry data are counted one by one.
pub proof fn carried_days_are_counted(plan: Outages, days: int)
    requires
        0 <= days < i64::MAX,
    ensures
        plan.carried_days(0) == 0,
        plan.carries(days as i64) ==> plan.carried_days(days + 1) == plan.carried_days(days) + 1,
        !plan.carries(days as i64) ==> plan.carried_days(days + 1) == plan.carried_days(days),
{
}

} // verus!
