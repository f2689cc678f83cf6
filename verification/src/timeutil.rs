//! Timezone handling: everything Home Assistant stores is UTC, everything the user
//! wants to see ("power at 14:00 in June") is local wall-clock time.
//!
//! The calendar itself, the zone database and the parsing of dates belong to `chrono` and
//! `chrono-tz`. Their answers enter through the trusted functions at the end of this file.

use chrono::{DateTime, Datelike, NaiveDate, NaiveDateTime, TimeZone, Timelike};
use chrono_tz::Tz;
use vstd::prelude::*;

use crate::text;

verus! {

/// A local calendar day, counted from the day before 1 January of year 1.
pub type DayNumber = i32;

/// The local wall-clock properties of a UTC instant that the aggregation cares about.
#[derive(Debug, Clone, Copy, PartialEq, Eq, Structural)]
pub struct LocalParts {
    /// Hour of the day, 0..=23.
    pub hour: u8,
    /// Calendar month, 1..=12.
    pub month: u8,
    /// ISO-8601 week number, 1..=53.
    pub iso_week: u8,
    /// The ISO-8601 week-based year (differs from `year` around New Year).
    pub iso_year: i32,
    /// Calendar year.
    pub year: i32,
    /// The local calendar day.
    pub day: DayNumber,
}

/// Everything a wall clock and a wall calendar show at one instant.
#[derive(Debug, Clone, Copy, PartialEq, Eq, Structural)]
pub struct LocalTime {
    pub parts: LocalParts,
    /// Day of the month, 1..=31.
    pub month_day: u8,
    /// Minute of the hour, 0..=59.
    pub minute: u8,
    /// Second of the minute, 0..=59.
    pub second: u8,
}

/// One day of the calendar.
#[derive(Debug, Clone, Copy, PartialEq, Eq, Structural)]
pub struct CalendarDate {
    pub year: i32,
    /// Calendar month, 1..=12.
    pub month: u8,
    /// Day of the month, 1..=31.
    pub month_day: u8,
    /// ISO-8601 week number, 1..=53.
    pub iso_week: u8,
}

/// A zone of the IANA database, identified by its name.
#[derive(Debug)]
pub struct Zone {
    name: String,
}

/// Why a timezone or a date could not be made sense of.
#[derive(Debug)]
pub enum TimeError {
    /// No zone of the IANA database has this name.
    UnknownZone(String),
    /// The text is not a `YYYY-MM-DD` date.
    InvalidDate(String),
    /// Neither midnight nor 01:00 of that date exists in the zone.
    SkippedDate(String),
}

impl TimeError {
    /// What to tell the user, where `zone` is the timezone that was asked for.
    pub open spec fn text(self, zone: Seq<char>) -> Seq<char> {
        match self {
            TimeError::UnknownZone(name) => "unknown timezone "@ + text::quoted(name@)
                + "; expected an IANA name like Europe/Berlin"@,
            TimeError::InvalidDate(date) => "invalid date "@ + text::quoted(date@)
                + ", expected YYYY-MM-DD"@,
            TimeError::SkippedDate(date) => "date "@ + date@ + " does not exist in timezone "@
                + zone,
        }
    }

    /// What to tell the user.
    pub fn message(&self, zone: &str) -> (message: String)
        ensures
            message@ == self.text(zone@),
    {
        match self {
            TimeError::UnknownZone(name) => {
                let mut message: String = String::from_str("unknown timezone ");
                message.append(text::quote(name.as_str()).as_str());
                message.append("; expected an IANA name like Europe/Berlin");
                message
            },
            TimeError::InvalidDate(date) => {
                let mut message: String = String::from_str("invalid date ");
                message.append(text::quote(date.as_str()).as_str());
                message.append(", expected YYYY-MM-DD");
                message
            },
            TimeError::SkippedDate(date) => {
                let mut message: String = String::from_str("date ");
                message.append(date.as_str());
                message.append(" does not exist in timezone ");
                message.append(zone);
                message
            },
        }
    }
}

/// What the machine says about its own timezone; a source that could not be read is `None`.
#[derive(Debug)]
pub struct MachineZone {
    /// The `TZ` environment variable.
    pub variable: Option<String>,
    /// The contents of `/etc/timezone`.
    pub timezone_file: Option<String>,
    /// The target of the `/etc/localtime` link.
    pub localtime_link: Option<String>,
}

impl LocalParts {
    /// The ranges a wall clock and a wall calendar keep to, and the date of the day shown.
    pub open spec fn in_range(self) -> bool {
        &&& self.hour < 24
        &&& 1 <= self.month <= 12
        &&& 1 <= self.iso_week <= 53
        &&& FIRST_DAY - 1 <= self.day <= LAST_DAY + 1
        &&& FIRST_DAY <= self.day <= LAST_DAY ==> self.shows_the_date()
    }

    /// Whether year, month and week are those of the date that the day stands for.
    pub open spec fn shows_the_date(self) -> bool {
        date_of_day(self.day as int) matches Some(date) && date.year == self.year && date.month
            == self.month && date.iso_week == self.iso_week
    }
}

impl LocalTime {
    /// The ranges a wall clock and a wall calendar keep to.
    pub open spec fn in_range(self) -> bool {
        &&& self.parts.in_range()
        &&& self.minute < 60
        &&& self.second < 60
        &&& 1 <= self.month_day <= 31
    }

    /// Seconds since the local hour began.
    pub open spec fn into_hour(self) -> int {
        self.minute * 60 + self.second
    }
}

impl CalendarDate {
    /// The ranges a calendar keeps to.
    pub open spec fn in_range(self) -> bool {
        &&& 1 <= self.month <= 12
        &&& 1 <= self.month_day <= 31
        &&& 1 <= self.iso_week <= 53
    }

    /// The date as `YYYY-MM-DD`; years of more than four digits carry their sign.
    pub open spec fn iso_text(self) -> Seq<char> {
        year_text(self.year as int) + seq!['-'] + text::two_digits(self.month as nat) + seq!['-']
            + text::two_digits(self.month_day as nat)
    }

    /// The date as `YYYY-MM-DD`.
    pub fn to_string(&self) -> (result: String)
        ensures
            result@ == self.iso_text(),
    {
        let mut result: String = String::new();
        push_year(&mut result, self.year);
        result.push('-');
        text::push_two_digits(&mut result, self.month as u64);
        result.push('-');
        text::push_two_digits(&mut result, self.month_day as u64);
        proof {
            assert(result@ =~= self.iso_text());
        }
        result
    }
}

/// A number in decimal, padded with zeros on the left to at least four digits.
pub open spec fn four_digits(n: nat) -> Seq<char> {
    if n < 10 {
        seq!['0', '0', '0'] + text::decimal(n)
    } else if n < 100 {
        seq!['0', '0'] + text::decimal(n)
    } else if n < 1000 {
        seq!['0'] + text::decimal(n)
    } else {
        text::decimal(n)
    }
}

/// A calendar year: four digits, with an explicit sign outside `0..=9999`.
pub open spec fn year_text(year: int) -> Seq<char> {
    if 0 <= year <= 9999 {
        four_digits(year as nat)
    } else if year < 0 {
        seq!['-'] + four_digits((-year) as nat)
    } else {
        seq!['+'] + four_digits(year as nat)
    }
}

fn push_four_digits(out: &mut String, n: u64)
    ensures
        final(out)@ == old(out)@ + four_digits(n as nat),
{
    let ghost before = out@;
    if n < 10 {
        out.append("000");
    } else if n < 100 {
        out.append("00");
    } else if n < 1000 {
        out.append("0");
    }
    text::push_number(out, n);
    proof {
        reveal_strlit("000");
        reveal_strlit("00");
        reveal_strlit("0");
        assert("000"@ =~= seq!['0', '0', '0']);
        assert("00"@ =~= seq!['0', '0']);
        assert("0"@ =~= seq!['0']);
        assert(out@ =~= before + four_digits(n as nat));
    }
}

fn push_year(out: &mut String, year: i32)
    ensures
        final(out)@ == old(out)@ + year_text(year as int),
{
    let ghost before = out@;
    if year < 0 {
        out.push('-');
        push_four_digits(out, (-(year as i64)) as u64);
    } else {
        if year > 9999 {
            out.push('+');
        }
        push_four_digits(out, year as u64);
    }
    proof {
        assert(out@ =~= before + year_text(year as int));
    }
}

// ---------------------------------------------------------------------------------------
// Zones
// ---------------------------------------------------------------------------------------

impl Zone {
    #[verifier::type_invariant]
    spec fn is_known(&self) -> bool {
        known_zone(self.name@)
    }

    /// The name of the zone, e.g. `Europe/Berlin`.
    pub closed spec fn view(&self) -> Seq<char> {
        self.name@
    }

    /// The zone of that name, if the database has one.
    pub fn named(name: &str) -> (zone: Option<Zone>)
        ensures
            zone is Some <==> known_zone(name@),
            zone matches Some(found) ==> found@ == name@,
    {
        if zone_exists(name) {
            Some(Zone { name: String::from_str(name) })
        } else {
            None
        }
    }

    /// Coordinated universal time.
    pub fn utc() -> (zone: Zone)
        ensures
            zone@ == "UTC"@,
    {
        let exists = zone_exists("UTC");
        Zone { name: String::from_str("UTC") }
    }

    /// The name of the zone, e.g. `Europe/Berlin`.
    pub fn name(&self) -> (name: &str)
        ensures
            name@ == self@,
    {
        self.name.as_str()
    }
}

impl Clone for Zone {
    fn clone(&self) -> (copy: Self)
        ensures
            copy@ == self@,
    {
        proof {
            use_type_invariant(self);
        }
        Zone { name: self.name.clone() }
    }
}

/// Whether a timezone given by the user asks for the machine's own.
pub open spec fn asks_for_local(spec: Option<Seq<char>>) -> bool {
    match spec {
        None => true,
        Some(name) => name == "local"@ || name == "Local"@ || name == ""@,
    }
}

/// The view of an optional text.
pub open spec fn text_of(text: Option<&str>) -> Option<Seq<char>> {
    match text {
        None => None,
        Some(text) => Some(text@),
    }
}

/// The name in a zoneinfo path: what follows the first `zoneinfo/`, without any leading
/// `posix/` and then without any leading `right/`.
pub open spec fn zoneinfo_name(path: Seq<char>) -> Option<Seq<char>> {
    if !text::contains_text(path, "zoneinfo/"@) {
        None
    } else {
        let at = choose|at: int| #[trigger]
            text::matches_at(path, "zoneinfo/"@, at) && forall|earlier: int|
                earlier < at ==> !text::matches_at(path, "zoneinfo/"@, earlier);
        let name = text::without_leading(
            text::without_leading(path.skip(at + "zoneinfo/"@.len()), "posix/"@),
            "right/"@,
        );
        if name.len() == 0 {
            None
        } else {
            Some(name)
        }
    }
}

/// The name a source holds, without white space around it.
pub open spec fn trimmed_name(source: Option<String>) -> Option<Seq<char>> {
    match source {
        Some(name) => Some(text::trimmed(name@)),
        None => None,
    }
}

/// The name in the target of a zoneinfo link.
pub open spec fn linked_name(link: Option<String>) -> Option<Seq<char>> {
    match link {
        Some(path) => zoneinfo_name(path@),
        None => None,
    }
}

/// Whether a source offers the name of a zone.
pub open spec fn offers_zone(name: Option<Seq<char>>) -> bool {
    name is Some && known_zone(name->0)
}

/// The machine's own zone: the first of its sources that names one, or UTC.
pub open spec fn machine_zone(machine: MachineZone) -> Seq<char> {
    if offers_zone(trimmed_name(machine.variable)) {
        trimmed_name(machine.variable)->0
    } else if offers_zone(trimmed_name(machine.timezone_file)) {
        trimmed_name(machine.timezone_file)->0
    } else if offers_zone(linked_name(machine.localtime_link)) {
        linked_name(machine.localtime_link)->0
    } else {
        "UTC"@
    }
}

/// Extract `Europe/Berlin` from something like `/usr/share/zoneinfo/Europe/Berlin`.
pub fn tz_name_from_zoneinfo_path(path: &str) -> (name: Option<String>)
    ensures
        match name {
            Some(name) => zoneinfo_name(path@) == Some(name@),
            None => zoneinfo_name(path@) is None,
        },
{
    let chars: Vec<char> = text::characters(path);
    let marker: Vec<char> = text::characters("zoneinfo/");
    let length: usize = chars.len();
    match text::find(chars.as_slice(), marker.as_slice()) {
        None => None,
        Some(at) => {
            let rest: String = text::slice_text(chars.as_slice(), at + marker.len(), length);
            let rest: String = text::trim_leading(rest.as_str(), "posix/");
            let rest: String = text::trim_leading(rest.as_str(), "right/");
            proof {
                assert(text::matches_at(path@, "zoneinfo/"@, at as int));
                let chosen = choose|at: int| #[trigger]
                    text::matches_at(path@, "zoneinfo/"@, at) && forall|earlier: int|
                        earlier < at ==> !text::matches_at(path@, "zoneinfo/"@, earlier);
                assert(chosen == at);
                assert(path@.skip(at + "zoneinfo/"@.len()) =~= path@.subrange(
                    at + "zoneinfo/"@.len(),
                    path@.len() as int,
                ));
            }
            if rest.as_str().is_empty() {
                None
            } else {
                Some(rest)
            }
        },
    }
}

/// Resolve a timezone name. `None`, `"local"`, `"Local"` or an empty name means the
/// machine's zone.
///
/// The machine's zone is the first of `$TZ`, `/etc/timezone` and the `/etc/localtime` link
/// target that names a zone, and UTC when none of them does.
pub fn resolve_timezone(spec: Option<&str>, machine: &MachineZone) -> (result: Result<
    Zone,
    TimeError,
>)
    ensures
        asks_for_local(text_of(spec)) ==> (result matches Ok(zone) && zone@ == machine_zone(
            *machine,
        )),
        !asks_for_local(text_of(spec)) ==> match result {
            Ok(zone) => known_zone(spec->0@) && zone@ == spec->0@,
            Err(error) => !known_zone(spec->0@) && (error matches TimeError::UnknownZone(name)
                && name@ == spec->0@),
        },
{
    match spec {
        None => Ok(detect_local_timezone(machine)),
        Some(name) => {
            if text::same_text(name, "local") || text::same_text(name, "Local") || text::same_text(
                name,
                "",
            ) {
                return Ok(detect_local_timezone(machine));
            }
            match Zone::named(name) {
                Some(zone) => Ok(zone),
                None => Err(TimeError::UnknownZone(String::from_str(name))),
            }
        },
    }
}

fn detect_local_timezone(machine: &MachineZone) -> (zone: Zone)
    ensures
        zone@ == machine_zone(*machine),
{
    if let Some(variable) = &machine.variable {
        let name: String = text::trim(variable.as_str());
        if let Some(zone) = Zone::named(name.as_str()) {
            return zone;
        }
    }
    if let Some(contents) = &machine.timezone_file {
        let name: String = text::trim(contents.as_str());
        if let Some(zone) = Zone::named(name.as_str()) {
            return zone;
        }
    }
    if let Some(link) = &machine.localtime_link {
        if let Some(name) = tz_name_from_zoneinfo_path(link.as_str()) {
            if let Some(zone) = Zone::named(name.as_str()) {
                return zone;
            }
        }
    }
    Zone::utc()
}

// ---------------------------------------------------------------------------------------
// Local time
// ---------------------------------------------------------------------------------------

/// The first instant the calendar reaches, midnight on 1 January of year -262143.
pub const FIRST_INSTANT: i64 = -8_334_601_228_800;

/// The last instant the calendar reaches, the end of 31 December of year 262142.
pub const LAST_INSTANT: i64 = 8_210_266_876_799;

/// The day of [`FIRST_INSTANT`].
pub const FIRST_DAY: DayNumber = -95_746_129;

/// The day of [`LAST_INSTANT`].
pub const LAST_DAY: DayNumber = 95_745_399;

/// The instant that stands for `ts`: itself, or the epoch beyond the calendar's reach.
pub open spec fn reachable(ts: int) -> int {
    if FIRST_INSTANT <= ts <= LAST_INSTANT {
        ts
    } else {
        0
    }
}

/// What a wall clock in the zone shows at an instant.
pub open spec fn local_time_at(zone: Seq<char>, ts: int) -> LocalTime {
    zone_local_time(zone, reachable(ts))
}

/// What a wall clock in the zone shows at a UTC unix timestamp.
pub fn local_time(ts: i64, tz: &Zone) -> (local: LocalTime)
    ensures
        local == local_time_at(tz@, ts as int),
        local.in_range(),
{
    proof {
        use_type_invariant(tz);
    }
    match chrono_local_time(ts, tz.name.as_str()) {
        Some(local) => local,
        None => chrono_local_time(0, tz.name.as_str()).unwrap(),
    }
}

/// Local wall-clock properties of a UTC unix timestamp.
pub fn local_parts(ts: i64, tz: &Zone) -> (parts: LocalParts)
    ensures
        parts == local_time_at(tz@, ts as int).parts,
        parts.in_range(),
{
    local_time(ts, tz).parts
}

/// The local calendar day of a UTC unix timestamp.
pub fn local_day(ts: i64, tz: &Zone) -> (day: DayNumber)
    ensures
        day == local_time_at(tz@, ts as int).parts.day,
        FIRST_DAY - 1 <= day <= LAST_DAY + 1,
{
    local_time(ts, tz).parts.day
}

/// The calendar date of a day number, or `None` beyond the calendar's reach.
pub fn day_to_date(day: DayNumber) -> (date: Option<CalendarDate>)
    ensures
        date == date_of_day(day as int),
        date is Some <==> FIRST_DAY <= day <= LAST_DAY,
        date matches Some(found) ==> found.in_range(),
{
    chrono_date(day)
}

/// A local instant as `YYYY-MM-DD HH:MM`.
pub open spec fn minute_text(local: LocalTime) -> Seq<char> {
    year_text(local.parts.year as int) + seq!['-'] + text::two_digits(local.parts.month as nat)
        + seq!['-'] + text::two_digits(local.month_day as nat) + seq![' '] + text::two_digits(
        local.parts.hour as nat,
    ) + seq![':'] + text::two_digits(local.minute as nat)
}

/// The local minute of an instant, or `?` beyond the calendar's reach.
pub open spec fn instant_text(zone: Seq<char>, ts: int) -> Seq<char> {
    if FIRST_INSTANT <= ts <= LAST_INSTANT {
        minute_text(zone_local_time(zone, ts))
    } else {
        seq!['?']
    }
}

/// The local minute of an instant, `2025-07-03 14:05`, or `?` beyond the calendar's reach.
pub fn format_instant(ts: i64, tz: &Zone) -> (result: String)
    ensures
        result@ == instant_text(tz@, ts as int),
{
    proof {
        use_type_invariant(tz);
    }
    let mut result: String = String::new();
    match chrono_local_time(ts, tz.name.as_str()) {
        None => {
            result.push('?');
            proof {
                assert(result@ =~= seq!['?']);
            }
        },
        Some(local) => {
            push_year(&mut result, local.parts.year);
            result.push('-');
            text::push_two_digits(&mut result, local.parts.month as u64);
            result.push('-');
            text::push_two_digits(&mut result, local.month_day as u64);
            result.push(' ');
            text::push_two_digits(&mut result, local.parts.hour as u64);
            result.push(':');
            text::push_two_digits(&mut result, local.minute as u64);
            proof {
                assert(result@ =~= minute_text(local));
            }
        },
    }
    result
}

/// A local instant as `YYYY-MM-DD`.
pub open spec fn day_text(local: LocalTime) -> Seq<char> {
    year_text(local.parts.year as int) + seq!['-'] + text::two_digits(local.parts.month as nat)
        + seq!['-'] + text::two_digits(local.month_day as nat)
}

/// The local date of an instant, or `?` beyond the calendar's reach.
pub open spec fn date_text(zone: Seq<char>, ts: int) -> Seq<char> {
    if FIRST_INSTANT <= ts <= LAST_INSTANT {
        day_text(zone_local_time(zone, ts))
    } else {
        seq!['?']
    }
}

/// The local date of an instant, `2025-07-03`, or `?` beyond the calendar's reach.
pub fn format_day(ts: i64, tz: &Zone) -> (result: String)
    ensures
        result@ == date_text(tz@, ts as int),
{
    let mut result: String = String::new();
    if ts < FIRST_INSTANT || ts > LAST_INSTANT {
        result.push('?');
        assert(result@ =~= seq!['?']);
        return result;
    }
    let local: LocalTime = local_time(ts, tz);
    push_day(&mut result, &local);
    result
}

/// Append a local instant as `YYYY-MM-DD`.
pub(crate) fn push_day(out: &mut String, local: &LocalTime)
    ensures
        final(out)@ == old(out)@ + day_text(*local),
{
    let ghost before = out@;
    push_year(out, local.parts.year);
    out.push('-');
    text::push_two_digits(out, local.parts.month as u64);
    out.push('-');
    text::push_two_digits(out, local.month_day as u64);
    assert(out@ =~= before + day_text(*local));
}

/// How many whole units of so many seconds a duration holds, rounded towards zero.
pub open spec fn whole_units(seconds: int, unit: int) -> int {
    if seconds >= 0 {
        seconds / unit
    } else {
        -(-seconds / unit)
    }
}

/// How many whole units of so many seconds a duration holds, rounded towards zero.
pub fn in_units(seconds: i64, unit: i64) -> (units: i64)
    requires
        unit >= 1,
    ensures
        units == whole_units(seconds as int, unit as int),
{
    let length: i128 = if seconds >= 0 {
        seconds as i128
    } else {
        -(seconds as i128)
    };
    let units: i128 = length / unit as i128;
    assert(0 <= units <= length) by (nonlinear_arith)
        requires
            units == length as int / unit as int,
            length >= 0,
            unit >= 1,
    ;
    if seconds >= 0 {
        units as i64
    } else {
        (-units) as i64
    }
}

/// Whole units never exceed the duration, and what is left over is less than one unit; both
/// have the sign of the duration.
pub proof fn whole_units_leave_less_than_one(seconds: int, unit: int)
    requires
        unit >= 1,
    ensures
        seconds >= 0 ==> 0 <= seconds - whole_units(seconds, unit) * unit < unit,
        seconds <= 0 ==> -unit < seconds - whole_units(seconds, unit) * unit <= 0,
{
    if seconds >= 0 {
        vstd::arithmetic::div_mod::lemma_fundamental_div_mod(seconds, unit);
        assert((seconds / unit) * unit == unit * (seconds / unit)) by (nonlinear_arith);
    } else {
        vstd::arithmetic::div_mod::lemma_fundamental_div_mod(-seconds, unit);
        assert(-(-seconds / unit) * unit == -(unit * (-seconds / unit))) by (nonlinear_arith);
    }
}

// ---------------------------------------------------------------------------------------
// Hour slices
// ---------------------------------------------------------------------------------------

/// A stretch of time inside one local hour.
#[derive(Debug, Clone, Copy, PartialEq, Eq, Structural)]
pub struct HourSlice {
    /// The wall clock at the start of the slice.
    pub parts: LocalParts,
    /// How long it lasts.
    pub seconds: u64,
}

/// Where the slice that starts at `cursor` ends: at the next local hour, or at `end`.
pub open spec fn slice_end(zone: Seq<char>, cursor: int, end: int) -> int {
    let next = cursor + (3600 - local_time_at(zone, cursor).into_hour());
    let next = if next <= cursor {
        cursor + 1
    } else {
        next
    };
    if next < end {
        next
    } else {
        end
    }
}

/// The slices of `[start, end)`, cut at local hour boundaries.
pub open spec fn hour_slices(zone: Seq<char>, start: int, end: int) -> Seq<HourSlice>
    decreases end - start,
{
    if start >= end {
        Seq::empty()
    } else {
        let next = slice_end(zone, start, end);
        seq![
            HourSlice {
                parts: local_time_at(zone, start).parts,
                seconds: (next - start) as u64,
            },
        ] + hour_slices(zone, next, end)
    }
}

/// Seconds covered by a list of slices.
pub open spec fn total_seconds(slices: Seq<HourSlice>) -> int
    decreases slices.len(),
{
    if slices.len() == 0 {
        0
    } else {
        slices[0].seconds + total_seconds(slices.skip(1))
    }
}

/// Split the half-open interval `[start, end)` at local hour boundaries.
///
/// This is what makes a reading that was in effect from 13:50 to 14:20 contribute 600
/// seconds to hour 13 and 1200 seconds to hour 14. Daylight saving transitions are
/// handled implicitly: the distance to the next local hour boundary is derived from the
/// local minute/second of the current instant, so a repeated hour simply accumulates
/// twice as much weight and a skipped hour accumulates none.
pub fn for_each_hour_slice(start: i64, end: i64, tz: &Zone) -> (slices: Vec<HourSlice>)
    ensures
        slices@ == hour_slices(tz@, start as int, end as int),
        forall|i: int|
            #![trigger slices@[i]]
            0 <= i < slices@.len() ==> 1 <= slices@[i].seconds <= 3600
                && slices@[i].parts.in_range(),
{
    let mut slices: Vec<HourSlice> = Vec::new();
    let mut cursor: i64 = start;
    proof {
        assert(slices@ + hour_slices(tz@, start as int, end as int) =~= hour_slices(
            tz@,
            start as int,
            end as int,
        ));
    }
    while cursor < end
        invariant
            slices@ + hour_slices(tz@, cursor as int, end as int) == hour_slices(
                tz@,
                start as int,
                end as int,
            ),
            forall|i: int|
                #![trigger slices@[i]]
                0 <= i < slices@.len() ==> 1 <= slices@[i].seconds <= 3600
                    && slices@[i].parts.in_range(),
        decreases end - cursor,
    {
        let local: LocalTime = local_time(cursor, tz);
        let into_hour: i64 = local.minute as i64 * 60 + local.second as i64;
        // A wall clock shows at most 3599 seconds past the hour, so this makes progress.
        let step: i64 = 3600 - into_hour;
        let next: i64 = if cursor > i64::MAX - step || cursor + step > end {
            end
        } else {
            cursor + step
        };
        let slice: HourSlice = HourSlice { parts: local.parts, seconds: (next - cursor) as u64 };
        let ghost before = slices@;
        slices.push(slice);
        proof {
            assert(next == slice_end(tz@, cursor as int, end as int));
            assert(before.push(slice) + hour_slices(tz@, next as int, end as int) =~= before + (
            seq![slice] + hour_slices(tz@, next as int, end as int)));
        }
        cursor = next;
    }
    proof {
        assert(slices@ + Seq::<HourSlice>::empty() =~= slices@);
    }
    slices
}

/// The slices of an interval cover exactly its length, whatever the clocks do: nothing is
/// lost to a skipped hour and nothing counted twice for a repeated one.
pub proof fn slice_durations_sum_to_the_interval_length(zone: Seq<char>, start: int, end: int)
    requires
        start <= end,
    ensures
        total_seconds(hour_slices(zone, start, end)) == end - start,
    decreases end - start,
{
    if start < end {
        let next = slice_end(zone, start, end);
        assert(start < next <= end);
        assert(next - start <= 3600);
        slice_durations_sum_to_the_interval_length(zone, next, end);
        let slices = hour_slices(zone, start, end);
        assert(slices.skip(1) =~= hour_slices(zone, next, end));
        assert(slices[0].seconds == next - start);
    }
}

/// No slice reaches past the end of the local hour it is booked under: it is booked under
/// what the wall clock shows where it starts, it is no longer than that clock has left of
/// its hour, and every slice but the last, which stops where the interval does, takes all of
/// it.
pub proof fn slices_end_with_their_local_hour(zone: Seq<char>, start: int, end: int, i: int)
    requires
        0 <= i < hour_slices(zone, start, end).len(),
        ({
            let at = start + total_seconds(hour_slices(zone, start, end).take(i));
            &&& FIRST_INSTANT <= at <= LAST_INSTANT
            &&& zone_local_time(zone, at).minute < 60
            &&& zone_local_time(zone, at).second < 60
        }),
    ensures
        ({
            let slices = hour_slices(zone, start, end);
            let at = start + total_seconds(slices.take(i));
            let clock = zone_local_time(zone, at);
            let left = 3600 - (clock.minute * 60 + clock.second);
            &&& slices[i].parts == clock.parts
            &&& 0 < slices[i].seconds <= left
            &&& i + 1 < slices.len() ==> slices[i].seconds == left
            &&& i + 1 == slices.len() ==> at + slices[i].seconds == end
        }),
    decreases i,
{
    let slices = hour_slices(zone, start, end);
    let next = slice_end(zone, start, end);
    let rest = hour_slices(zone, next, end);
    assert(start < next <= end && next - start <= 3600);
    assert(slices.skip(1) =~= rest);
    assert(slices[0].seconds == next - start);
    if i == 0 {
        assert(slices.take(0) =~= Seq::empty());
    } else {
        let before = slices.take(i);
        assert(before[0] == slices[0]);
        assert(before.skip(1) =~= rest.take(i - 1));
        slices_end_with_their_local_hour(zone, next, end, i - 1);
        assert(slices[i] == rest[i - 1]);
    }
}

/// Where an interval began does not matter to the slices that follow: one that starts where
/// a slice of a longer interval ends is cut as the rest of that one is.
pub proof fn slicing_goes_on_where_a_slice_ends(zone: Seq<char>, start: int, end: int)
    requires
        start < end,
    ensures
        ({
            let slices = hour_slices(zone, start, end);
            &&& slices.len() > 0
            &&& hour_slices(zone, start + slices[0].seconds, end) == slices.skip(1)
        }),
{
    let next = slice_end(zone, start, end);
    assert(start < next <= end && next - start <= 3600);
    assert(hour_slices(zone, start, end).skip(1) =~= hour_slices(zone, next, end));
}

/// Beyond the reach of the calendar a clock shows the epoch, and within it the instant.
pub proof fn clocks_show_the_instant(zone: Seq<char>, ts: int)
    ensures
        FIRST_INSTANT <= ts <= LAST_INSTANT ==> local_time_at(zone, ts) == zone_local_time(
            zone,
            ts,
        ),
        ts < FIRST_INSTANT || ts > LAST_INSTANT ==> local_time_at(zone, ts) == zone_local_time(
            zone,
            0,
        ),
{
}

// ---------------------------------------------------------------------------------------
// Parsing
// ---------------------------------------------------------------------------------------

/// The shape a timestamp is brought into before the plain formats are tried.
pub open spec fn normalised(text: Seq<char>) -> Seq<char> {
    text::with_replaced(text::without_trailing(text, 'Z'), 'T', ' ')
}

/// The instant a recorder timestamp stands for.
pub open spec fn ha_datetime(raw: Seq<char>) -> Option<i64> {
    let text = text::trimmed(raw);
    if text.len() == 0 {
        None
    } else if rfc3339_timestamp(text) is Some {
        rfc3339_timestamp(text)
    } else if naive_timestamp(normalised(text), "%Y-%m-%d %H:%M:%S%.f"@) is Some {
        naive_timestamp(normalised(text), "%Y-%m-%d %H:%M:%S%.f"@)
    } else {
        naive_timestamp(normalised(text), "%Y-%m-%d %H:%M"@)
    }
}

/// Parse the textual UTC timestamps used by legacy recorder schemas, e.g.
/// `2023-06-01 12:00:00.000000` or `2023-06-01T12:00:00+00:00`.
pub fn parse_ha_datetime(raw: &str) -> (ts: Option<i64>)
    ensures
        ts == ha_datetime(raw@),
{
    let text: String = text::trim(raw);
    if text.as_str().is_empty() {
        return None;
    }
    if let Some(ts) = chrono_rfc3339(text.as_str()) {
        return Some(ts);
    }
    let text: String = text::trim_trailing(text.as_str(), 'Z');
    let text: String = text::replace_char(text.as_str(), 'T', ' ');
    if let Some(ts) = chrono_naive_datetime(text.as_str(), "%Y-%m-%d %H:%M:%S%.f") {
        return Some(ts);
    }
    chrono_naive_datetime(text.as_str(), "%Y-%m-%d %H:%M")
}

/// The start of a local day: midnight, or 01:00 where the clocks skip midnight.
pub open spec fn start_of_local_day(zone: Seq<char>, day: int) -> Option<i64> {
    if earliest_instant(zone, day, 0) is Some {
        earliest_instant(zone, day, 0)
    } else {
        earliest_instant(zone, day, 1)
    }
}

/// The start of a local day: midnight, or 01:00 where a daylight saving transition skips
/// midnight.
pub fn local_midnight(day: DayNumber, tz: &Zone) -> (ts: Option<i64>)
    ensures
        ts == start_of_local_day(tz@, day as int),
{
    if let Some(ts) = chrono_local_instant(tz.name.as_str(), day, 0) {
        return Some(ts);
    }
    chrono_local_instant(tz.name.as_str(), day, 1)
}

/// Parse a `YYYY-MM-DD` boundary given on the command line into the UTC timestamp of
/// local midnight on that day.
pub fn parse_local_date(date: &str, tz: &Zone) -> (result: Result<i64, TimeError>)
    ensures
        match day_of_date(text::trimmed(date@), "%Y-%m-%d"@) {
            None => result matches Err(TimeError::InvalidDate(text)) && text@ == date@,
            Some(day) => match start_of_local_day(tz@, day as int) {
                None => result matches Err(TimeError::SkippedDate(text)) && text@ == date@,
                Some(ts) => result matches Ok(found) && found == ts,
            },
        },
{
    let text: String = text::trim(date);
    match chrono_day(text.as_str(), "%Y-%m-%d") {
        None => Err(TimeError::InvalidDate(String::from_str(date))),
        Some(day) => match local_midnight(day, tz) {
            None => Err(TimeError::SkippedDate(String::from_str(date))),
            Some(ts) => Ok(ts),
        },
    }
}

// ---------------------------------------------------------------------------------------
// What chrono and chrono-tz answer
// ---------------------------------------------------------------------------------------

/// Whether the zone database has a zone of this name.
pub uninterp spec fn known_zone(name: Seq<char>) -> bool;

/// What a wall clock in the zone shows at an instant.
pub uninterp spec fn zone_local_time(zone: Seq<char>, ts: int) -> LocalTime;

/// The calendar date of a day, if the calendar reaches it.
pub uninterp spec fn date_of_day(day: int) -> Option<CalendarDate>;

/// The instant an RFC 3339 text stands for.
pub uninterp spec fn rfc3339_timestamp(text: Seq<char>) -> Option<i64>;

/// The instant a text stands for, read as UTC with a `strftime` format.
pub uninterp spec fn naive_timestamp(text: Seq<char>, format: Seq<char>) -> Option<i64>;

/// The day a text stands for, read with a `strftime` format.
pub uninterp spec fn day_of_date(text: Seq<char>, format: Seq<char>) -> Option<i32>;

/// The first instant at which clocks in the zone show the full hour on that day.
pub uninterp spec fn earliest_instant(zone: Seq<char>, day: int, hour: int) -> Option<i64>;

/// `Tz::from_str` of `chrono-tz` looks the name up in the table of zones compiled into the
/// crate. The table holds `UTC`.
#[verifier::external_body]
fn zone_exists(name: &str) -> (exists: bool)
    ensures
        exists == known_zone(name@),
        name@ == "UTC"@ ==> exists,
{
    name.parse::<Tz>().is_ok()
}

/// `DateTime::from_timestamp`, `with_timezone` and the `Datelike` and `Timelike` getters of
/// `chrono`, in the zone of that name. There is an answer exactly for a zone of the
/// database and an instant of the calendar's range. Its fields keep to the ranges that
/// `chrono` documents for the getters, and the getters of the local date agree with those of
/// `NaiveDate::from_num_days_from_ce_opt` for its day. An offset of less than a day can move
/// the local day one past the end of the calendar's range, where there is no such date.
#[verifier::external_body]
fn chrono_local_time(ts: i64, zone: &str) -> (local: Option<LocalTime>)
    ensures
        local is Some == (known_zone(zone@) && FIRST_INSTANT <= ts <= LAST_INSTANT),
        local matches Some(found) ==> (found == zone_local_time(zone@, ts as int)
            && found.in_range()),
{
    let tz = zone.parse::<Tz>().ok()?;
    let local = DateTime::from_timestamp(ts, 0)?.with_timezone(&tz);
    let parts = LocalParts {
        hour: local.hour() as u8,
        month: local.month() as u8,
        iso_week: local.iso_week().week() as u8,
        iso_year: local.iso_week().year(),
        year: local.year(),
        day: local.num_days_from_ce(),
    };
    let (minute, second) = (local.minute() as u8, local.second() as u8);
    Some(LocalTime { parts, month_day: local.day() as u8, minute, second })
}

/// `NaiveDate::from_num_days_from_ce_opt` of `chrono` and the `Datelike` getters, whose
/// results keep to the ranges that `chrono` documents. There is a date exactly for the days
/// of the calendar's range.
#[verifier::external_body]
fn chrono_date(day: i32) -> (date: Option<CalendarDate>)
    ensures
        date == date_of_day(day as int),
        date is Some == (FIRST_DAY <= day <= LAST_DAY),
        date matches Some(found) ==> found.in_range(),
{
    NaiveDate::from_num_days_from_ce_opt(day).map(
        |date| CalendarDate {
            year: date.year(),
            month: date.month() as u8,
            month_day: date.day() as u8,
            iso_week: date.iso_week().week() as u8,
        },
    )
}

/// `DateTime::parse_from_rfc3339` of `chrono`, as a unix timestamp.
#[verifier::external_body]
fn chrono_rfc3339(text: &str) -> (ts: Option<i64>)
    ensures
        ts == rfc3339_timestamp(text@),
{
    DateTime::parse_from_rfc3339(text).ok().map(|parsed| parsed.timestamp())
}

/// `NaiveDateTime::parse_from_str` of `chrono`, read as UTC, as a unix timestamp. The formats
/// are those of a calendar date and a time of day: with some others, one of an ISO year among
/// them, the parser can overflow.
#[verifier::external_body]
fn chrono_naive_datetime(text: &str, format: &str) -> (ts: Option<i64>)
    requires
        format@ == "%Y-%m-%d %H:%M:%S%.f"@ || format@ == "%Y-%m-%d %H:%M"@,
    ensures
        ts == naive_timestamp(text@, format@),
{
    NaiveDateTime::parse_from_str(text, format).ok().map(|parsed| parsed.and_utc().timestamp())
}

/// `NaiveDate::parse_from_str` of `chrono`, as a day number. The format is that of a calendar
/// date: with some others, one of an ISO year among them, the parser can overflow.
#[verifier::external_body]
fn chrono_day(text: &str, format: &str) -> (day: Option<i32>)
    requires
        format@ == "%Y-%m-%d"@,
    ensures
        day == day_of_date(text@, format@),
{
    NaiveDate::parse_from_str(text, format).ok().map(|parsed| parsed.num_days_from_ce())
}

/// `TimeZone::from_local_datetime` of `chrono` in the zone of that name, at a full hour of
/// a day; of two instants the earlier, as a unix timestamp.
#[verifier::external_body]
fn chrono_local_instant(zone: &str, day: i32, hour: u32) -> (ts: Option<i64>)
    ensures
        ts == earliest_instant(zone@, day as int, hour as int),
{
    let tz = zone.parse::<Tz>().ok()?;
    let clock = NaiveDate::from_num_days_from_ce_opt(day)?.and_hms_opt(hour, 0, 0)?;
    tz.from_local_datetime(&clock).earliest().map(|instant| instant.timestamp())
}

/// Four digits are four digits, or more where four do not do, and read as the number they
/// stand for.
pub proof fn four_digits_read_back(n: nat)
    ensures
        n < 10_000 ==> four_digits(n).len() == 4,
        n >= 10_000 ==> four_digits(n).len() > 4,
        text::read_as(four_digits(n)) == n,
{
    let digits = text::decimal(n);
    text::decimals_read_back(n);
    text::leading_zeros_count_for_nothing(digits);
    let one = seq!['0'] + digits;
    text::leading_zeros_count_for_nothing(one);
    let two = seq!['0'] + one;
    text::leading_zeros_count_for_nothing(two);
    assert(seq!['0', '0'] + digits =~= two);
    assert(seq!['0', '0', '0'] + digits =~= seq!['0'] + two);
}

/// A date is written as its year, its month and its day, each in as many digits as ISO 8601
/// asks for and with a hyphen between.
pub proof fn dates_read_back(date: CalendarDate)
    requires
        date.in_range(),
        0 <= date.year <= 9999,
    ensures
        date.iso_text().len() == 10,
        text::read_as(date.iso_text().subrange(0, 4)) == date.year,
        date.iso_text()[4] == '-',
        text::read_as(date.iso_text().subrange(5, 7)) == date.month,
        date.iso_text()[7] == '-',
        text::read_as(date.iso_text().subrange(8, 10)) == date.month_day,
{
    four_digits_read_back(date.year as nat);
    text::two_digits_read_back(date.month as nat);
    text::two_digits_read_back(date.month_day as nat);
    let written = date.iso_text();
    assert(written.subrange(0, 4) =~= four_digits(date.year as nat));
    assert(written.subrange(5, 7) =~= text::two_digits(date.month as nat));
    assert(written.subrange(8, 10) =~= text::two_digits(date.month_day as nat));
}

/// An instant is written as the wall clock shows it: its date, a space, and the hour and
/// minute with a colon between.
pub proof fn minutes_read_back(zone: Seq<char>, ts: int)
    requires
        FIRST_INSTANT <= ts <= LAST_INSTANT,
        zone_local_time(zone, ts).in_range(),
        0 <= zone_local_time(zone, ts).parts.year <= 9999,
    ensures
        ({
            let clock = zone_local_time(zone, ts);
            let written = instant_text(zone, ts);
            &&& written.len() == 16
            &&& text::read_as(written.subrange(0, 4)) == clock.parts.year
            &&& text::read_as(written.subrange(5, 7)) == clock.parts.month
            &&& text::read_as(written.subrange(8, 10)) == clock.month_day
            &&& text::read_as(written.subrange(11, 13)) == clock.parts.hour
            &&& text::read_as(written.subrange(14, 16)) == clock.minute
            &&& written[4] == '-' && written[7] == '-' && written[10] == ' ' && written[13] == ':'
            &&& date_text(zone, ts) == written.take(10)
        }),
{
    let clock = zone_local_time(zone, ts);
    let written = instant_text(zone, ts);
    four_digits_read_back(clock.parts.year as nat);
    text::two_digits_read_back(clock.parts.month as nat);
    text::two_digits_read_back(clock.month_day as nat);
    text::two_digits_read_back(clock.parts.hour as nat);
    text::two_digits_read_back(clock.minute as nat);
    assert(written.subrange(0, 4) =~= four_digits(clock.parts.year as nat));
    assert(written.subrange(5, 7) =~= text::two_digits(clock.parts.month as nat));
    assert(written.subrange(8, 10) =~= text::two_digits(clock.month_day as nat));
    assert(written.subrange(11, 13) =~= text::two_digits(clock.parts.hour as nat));
    assert(written.subrange(14, 16) =~= text::two_digits(clock.minute as nat));
    assert(date_text(zone, ts) =~= written.take(10));
}

/// The name in a zoneinfo path ends the path, stands somewhere behind `zoneinfo/`, and is
/// never blank nor in the tree of leap seconds.
pub proof fn zone_names_end_their_paths(path: Seq<char>)
    requires
        zoneinfo_name(path) is Some,
    ensures
        zoneinfo_name(path)->0.len() > 0,
        text::has_suffix(path, zoneinfo_name(path)->0),
        text::contains_text(
            path.take(path.len() - zoneinfo_name(path)->0.len()),
            "zoneinfo/"@,
        ),
        !text::matches_at(zoneinfo_name(path)->0, "right/"@, 0),
{
    reveal_strlit("zoneinfo/");
    reveal_strlit("posix/");
    reveal_strlit("right/");
    let marker = "zoneinfo/"@;
    first_match_exists(path, marker);
    let at = choose|at: int| #[trigger]
        text::matches_at(path, marker, at) && forall|earlier: int|
            earlier < at ==> !text::matches_at(path, marker, earlier);
    assert(text::matches_at(path, marker, at));
    let rest = path.skip(at + marker.len());
    let plain = text::without_leading(rest, "posix/"@);
    let name = text::without_leading(plain, "right/"@);
    text::what_leads_is_taken_off(rest, "posix/"@);
    text::what_leads_is_taken_off(plain, "right/"@);
    assert(name.len() <= plain.len() <= rest.len());
    assert(path.skip(path.len() - name.len()) =~= name) by {
        assert(rest.skip(rest.len() - plain.len()) == plain);
        assert(plain.skip(plain.len() - name.len()) == name);
        assert(path.skip(path.len() - name.len()) =~= rest.skip(rest.len() - plain.len()).skip(
            plain.len() - name.len(),
        ));
    }
    let front = path.take(path.len() - name.len());
    assert(front.subrange(at, at + marker.len()) =~= path.subrange(at, at + marker.len()));
    assert(text::matches_at(front, marker, at));
}

/// What stands in a text stands somewhere in it first.
proof fn first_match_exists(path: Seq<char>, marker: Seq<char>)
    requires
        text::contains_text(path, marker),
    ensures
        exists|at: int| #[trigger]
            text::matches_at(path, marker, at) && forall|earlier: int|
                earlier < at ==> !text::matches_at(path, marker, earlier),
{
    let at = choose|at: int| text::matches_at(path, marker, at);
    earliest_match(path, marker, at);
}

proof fn earliest_match(path: Seq<char>, marker: Seq<char>, at: int)
    requires
        text::matches_at(path, marker, at),
    ensures
        exists|at: int| #[trigger]
            text::matches_at(path, marker, at) && forall|earlier: int|
                earlier < at ==> !text::matches_at(path, marker, earlier),
    decreases at,
{
    if exists|earlier: int| earlier < at && text::matches_at(path, marker, earlier) {
        let earlier = choose|earlier: int|
            earlier < at && text::matches_at(path, marker, earlier);
        earliest_match(path, marker, earlier);
    }
}

/// The machine's zone is one that the database knows, or else UTC; the variable is asked
/// before the file and the file before the link, and what names no known zone is passed over.
pub proof fn the_machine_is_asked_in_order(machine: MachineZone)
    ensures
        known_zone(machine_zone(machine)) || machine_zone(machine) == "UTC"@,
        machine.variable matches Some(name) && known_zone(text::trimmed(name@))
            ==> machine_zone(machine) == text::trimmed(machine.variable->0@),
        (machine.variable is None || !known_zone(text::trimmed(machine.variable->0@))) && (
        machine.timezone_file is Some && known_zone(text::trimmed(machine.timezone_file->0@)))
            ==> machine_zone(machine) == text::trimmed(machine.timezone_file->0@),
        (machine.variable is None || !known_zone(text::trimmed(machine.variable->0@))) && (
        machine.timezone_file is None || !known_zone(text::trimmed(machine.timezone_file->0@)))
            ==> machine_zone(machine) == match machine.localtime_link {
            Some(path) => match zoneinfo_name(path@) {
                Some(name) => if known_zone(name) {
                    name
                } else {
                    "UTC"@
                },
                None => "UTC"@,
            },
            None => "UTC"@,
        },
{
}

/// White space around a timestamp says nothing, and a timestamp that carries its own offset is
/// taken at its word.
pub proof fn timestamps_are_read_without_white_space(raw: Seq<char>)
    ensures
        ha_datetime(text::trimmed(raw)) == ha_datetime(raw),
        (forall|i: int| 0 <= i < raw.len() ==> text::is_white_space(#[trigger] raw[i]))
            ==> ha_datetime(raw) is None,
        text::trimmed(raw).len() > 0 && rfc3339_timestamp(text::trimmed(raw)) is Some
            ==> ha_datetime(raw) == rfc3339_timestamp(text::trimmed(raw)),
{
    text::trimming_twice_is_trimming_once(raw);
    let cut = text::trimming_takes_white_space_off_the_ends(raw);
    if forall|i: int| 0 <= i < raw.len() ==> text::is_white_space(#[trigger] raw[i]) {
        if cut.0 < cut.1 {
            assert(text::is_white_space(raw[cut.0]));
        }
    }
}

/// A timestamp without an offset is read the same with a `T` or a space between its date and
/// its time, and with or without a `Z` behind.
pub proof fn separators_and_suffixes_do_not_matter(date: Seq<char>, time: Seq<char>)
    requires
        time.len() > 0,
        time.last() != 'Z',
    ensures
        normalised(date + seq!['T'] + time) == normalised(date + seq![' '] + time),
        normalised(date + seq![' '] + time + seq!['Z']) == normalised(
            date + seq![' '] + time,
        ),
{
    let spaced = date + seq![' '] + time;
    let marked = date + seq!['T'] + time;
    let zulu = spaced + seq!['Z'];
    assert(spaced.last() == time.last());
    assert(marked.last() == time.last());
    assert(zulu.drop_last() =~= spaced);
    assert(normalised(marked) =~= normalised(spaced));
}

/// A local day starts at midnight, and at one where midnight was skipped.
pub proof fn days_start_at_midnight_where_there_is_one(zone: Seq<char>, day: int)
    ensures
        earliest_instant(zone, day, 0) is Some ==> start_of_local_day(zone, day)
            == earliest_instant(zone, day, 0),
        earliest_instant(zone, day, 0) is None ==> start_of_local_day(zone, day)
            == earliest_instant(zone, day, 1),
{
}

/// A stretch of time is sliced exactly when it lasts, and every slice of it does.
pub proof fn only_what_lasts_is_sliced(zone: Seq<char>, start: int, end: int)
    ensures
        start >= end <==> hour_slices(zone, start, end).len() == 0,
{
}

/// A year outside of four digits carries its sign in front of its number, and any other none.
pub proof fn years_outside_four_digits_carry_their_sign(year: int)
    ensures
        0 <= year <= 9999 ==> year_text(year).len() == 4 && text::read_as(year_text(year)) == year,
        year > 9999 ==> year_text(year)[0] == '+' && text::read_as(year_text(year).skip(1))
            == year,
        year < 0 ==> year_text(year)[0] == '-' && text::read_as(year_text(year).skip(1)) == -year,
{
    if 0 <= year {
        four_digits_read_back(year as nat);
        if year > 9999 {
            assert(year_text(year).skip(1) =~= four_digits(year as nat));
        }
    } else {
        four_digits_read_back((-year) as nat);
        assert(year_text(year).skip(1) =~= four_digits((-year) as nat));
    }
}

} // verus!
