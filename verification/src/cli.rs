//! The validation of everything the user can type.
//!
//! Numbers come in as the text they were given in and what has to be known of them.

use vstd::prelude::*;

use crate::render::color;
use crate::text;
use crate::timeutil;
use crate::timeutil::{MachineZone, Zone};

verus! {

/// On which side of zero a number lies.
#[derive(Debug, Clone, Copy, PartialEq, Eq, Structural)]
pub enum Sign {
    /// Infinite, or not a number at all.
    NotFinite,
    Negative,
    Zero,
    Positive,
}

/// A number that was typed: how it is repeated in a message, and what is known of it.
#[derive(Debug)]
pub struct Number {
    pub text: String,
    pub sign: Sign,
    pub at_most_one: bool,
    pub below_hundred: bool,
}

impl Number {
    /// Zero or above, and finite.
    pub open spec fn not_negative(self) -> bool {
        self.sign is Zero || self.sign is Positive
    }

    /// Between zero and one, both included.
    pub open spec fn is_share(self) -> bool {
        self.not_negative() && self.at_most_one
    }

    pub(crate) fn is_positive(&self) -> (yes: bool)
        ensures
            yes == (self.sign is Positive),
    {
        matches!(self.sign, Sign::Positive)
    }

    fn is_not_negative(&self) -> (yes: bool)
        ensures
            yes == self.not_negative(),
    {
        matches!(self.sign, Sign::Positive | Sign::Zero)
    }
}

/// The first of two complaints that there is.
pub open spec fn first_of(a: Option<Seq<char>>, b: Option<Seq<char>>) -> Option<Seq<char>> {
    if a is Some {
        a
    } else {
        b
    }
}

/// The text of a complaint, if there is one.
pub open spec fn said(complaint: Option<String>) -> Option<Seq<char>> {
    match complaint {
        Some(text) => Some(text@),
        None => None,
    }
}

/// What is wrong with a number that has to be positive.
pub open spec fn positive_rule(name: Seq<char>, number: Number) -> Option<Seq<char>> {
    if number.sign is Positive {
        None
    } else {
        Some(name + " must be a positive number, got "@ + number.text@)
    }
}

pub(crate) fn positive(name: &str, number: &Number) -> (complaint: Option<String>)
    ensures
        said(complaint) == positive_rule(name@, *number),
{
    if number.is_positive() {
        return None;
    }
    let mut out: String = String::from_str(name);
    out.append(" must be a positive number, got ");
    out.append(number.text.as_str());
    Some(out)
}

/// What is wrong with a number that must not be negative.
pub open spec fn not_negative_rule(name: Seq<char>, number: Number) -> Option<Seq<char>> {
    if number.not_negative() {
        None
    } else {
        Some(name + " must not be negative, got "@ + number.text@)
    }
}

pub(crate) fn not_negative(name: &str, number: &Number) -> (complaint: Option<String>)
    ensures
        said(complaint) == not_negative_rule(name@, *number),
{
    if number.is_not_negative() {
        return None;
    }
    let mut out: String = String::from_str(name);
    out.append(" must not be negative, got ");
    out.append(number.text.as_str());
    Some(out)
}

/// What is wrong with a number that has to be a share.
pub open spec fn share_rule(name: Seq<char>, number: Number) -> Option<Seq<char>> {
    if number.is_share() {
        None
    } else {
        Some(name + " must be between 0 and 1, got "@ + number.text@)
    }
}

pub(crate) fn share(name: &str, number: &Number) -> (complaint: Option<String>)
    ensures
        said(complaint) == share_rule(name@, *number),
{
    if number.is_not_negative() && number.at_most_one {
        return None;
    }
    let mut out: String = String::from_str(name);
    out.append(" must be between 0 and 1, got ");
    out.append(number.text.as_str());
    Some(out)
}

/// What is wrong with a number that has to be a share above nothing.
pub open spec fn positive_share_rule(name: Seq<char>, number: Number) -> Option<Seq<char>> {
    if number.sign is Positive && number.at_most_one {
        None
    } else {
        Some(name + " must be greater than 0 and at most 1, got "@ + number.text@)
    }
}

pub(crate) fn positive_share(name: &str, number: &Number) -> (complaint: Option<String>)
    ensures
        said(complaint) == positive_share_rule(name@, *number),
{
    if number.is_positive() && number.at_most_one {
        return None;
    }
    let mut out: String = String::from_str(name);
    out.append(" must be greater than 0 and at most 1, got ");
    out.append(number.text.as_str());
    Some(out)
}

/// What is wrong with a number that has to be a percentage below the whole.
pub open spec fn percentage_rule(name: Seq<char>, number: Number) -> Option<Seq<char>> {
    if number.not_negative() && number.below_hundred {
        None
    } else {
        Some(name + " must be between 0 and 100 percent, got "@ + number.text@)
    }
}

pub(crate) fn percentage(name: &str, number: &Number) -> (complaint: Option<String>)
    ensures
        said(complaint) == percentage_rule(name@, *number),
{
    if number.is_not_negative() && number.below_hundred {
        return None;
    }
    let mut out: String = String::from_str(name);
    out.append(" must be between 0 and 100 percent, got ");
    out.append(number.text.as_str());
    Some(out)
}

/// What is wrong with a number that has to be a factor.
pub open spec fn factor_rule(name: Seq<char>, number: Number) -> Option<Seq<char>> {
    if number.sign is Negative || number.sign is Positive {
        None
    } else {
        Some(name + " must be a non-zero number, got "@ + number.text@)
    }
}

pub(crate) fn factor(name: &str, number: &Number) -> (complaint: Option<String>)
    ensures
        said(complaint) == factor_rule(name@, *number),
{
    if matches!(number.sign, Sign::Negative | Sign::Positive) {
        return None;
    }
    let mut out: String = String::from_str(name);
    out.append(" must be a non-zero number, got ");
    out.append(number.text.as_str());
    Some(out)
}

/// What is wrong with the longest time a reading stays valid.
pub open spec fn max_gap_rule(max_gap: int) -> Option<Seq<char>> {
    if max_gap > 0 {
        None
    } else {
        Some("--max-gap must be positive, got "@ + text::signed_decimal(max_gap))
    }
}

pub(crate) fn check_max_gap(max_gap: i64) -> (complaint: Option<String>)
    ensures
        said(complaint) == max_gap_rule(max_gap as int),
{
    if max_gap > 0 {
        return None;
    }
    let mut out: String = String::from_str("--max-gap must be positive, got ");
    text::push_signed(&mut out, max_gap);
    Some(out)
}

/// What is wrong with a scale, where one was given.
pub open spec fn scale_rule(scale: Option<Number>) -> Option<Seq<char>> {
    match scale {
        Some(scale) => factor_rule("--scale"@, scale),
        None => None,
    }
}

pub(crate) fn check_scale(scale: &Option<Number>) -> (complaint: Option<String>)
    ensures
        said(complaint) == scale_rule(*scale),
{
    match scale {
        Some(scale) => factor("--scale", scale),
        None => None,
    }
}

/// What is wrong with a number of threads, where one was given.
pub open spec fn threads_rule(threads: Option<usize>) -> Option<Seq<char>> {
    if threads == Some(0usize) {
        Some("--threads must be at least 1"@)
    } else {
        None
    }
}

pub(crate) fn check_threads(threads: Option<usize>) -> (complaint: Option<String>)
    ensures
        said(complaint) == threads_rule(threads),
{
    match threads {
        Some(0) => Some(String::from_str("--threads must be at least 1")),
        _ => None,
    }
}

// ---------------------------------------------------------------------------------------
// The window
// ---------------------------------------------------------------------------------------

/// The zone and the dates that were asked for.
#[derive(Debug)]
pub struct Window {
    pub tz: Zone,
    /// Inclusive lower bound as a UTC timestamp.
    pub from: Option<i64>,
    /// Exclusive upper bound as a UTC timestamp.
    pub to: Option<i64>,
}

/// What is to be said of a date, or the instant it starts at in the zone.
pub open spec fn date_answer(date: Seq<char>, zone: Seq<char>) -> Result<i64, Seq<char>> {
    match timeutil::day_of_date(text::trimmed(date), "%Y-%m-%d"@) {
        None => Err("invalid date "@ + text::quoted(date) + ", expected YYYY-MM-DD"@),
        Some(day) => match timeutil::start_of_local_day(zone, day as int) {
            None => Err("date "@ + date + " does not exist in timezone "@ + zone),
            Some(ts) => Ok(ts),
        },
    }
}

/// The same of a date that may not have been given.
pub open spec fn bound_answer(date: Option<Seq<char>>, zone: Seq<char>) -> Result<
    Option<i64>,
    Seq<char>,
> {
    match date {
        None => Ok(None),
        Some(date) => match date_answer(date, zone) {
            Ok(ts) => Ok(Some(ts)),
            Err(complaint) => Err(complaint),
        },
    }
}

/// The zone that was asked for, or what is to be said of it.
pub open spec fn zone_answer(tz: Option<Seq<char>>, machine: MachineZone) -> Result<
    Seq<char>,
    Seq<char>,
> {
    if timeutil::asks_for_local(tz) {
        Ok(timeutil::machine_zone(machine))
    } else if timeutil::known_zone(tz->0) {
        Ok(tz->0)
    } else {
        Err(
            "unknown timezone "@ + text::quoted(tz->0)
                + "; expected an IANA name like Europe/Berlin"@,
        )
    }
}

/// The window that was asked for, or what is to be said of it: the zone, then each date in
/// it, then that they are in order.
pub open spec fn window_answer(
    tz: Option<Seq<char>>,
    from: Option<Seq<char>>,
    to: Option<Seq<char>>,
    machine: MachineZone,
) -> Result<(Seq<char>, Option<i64>, Option<i64>), Seq<char>> {
    match zone_answer(tz, machine) {
        Err(complaint) => Err(complaint),
        Ok(zone) => match bound_answer(from, zone) {
            Err(complaint) => Err(complaint),
            Ok(from) => match bound_answer(to, zone) {
                Err(complaint) => Err(complaint),
                Ok(to) => if from is Some && to is Some && to->0 <= from->0 {
                    Err("--to must be after --from"@)
                } else {
                    Ok((zone, from, to))
                },
            },
        },
    }
}

/// What a resolved window says.
pub open spec fn window_view(result: Result<Window, String>) -> Result<
    (Seq<char>, Option<i64>, Option<i64>),
    Seq<char>,
> {
    match result {
        Ok(window) => Ok((window.tz@, window.from, window.to)),
        Err(complaint) => Err(complaint@),
    }
}

fn resolve_bound(date: Option<&str>, tz: &Zone) -> (result: Result<Option<i64>, String>)
    ensures
        match bound_answer(timeutil::text_of(date), tz@) {
            Ok(ts) => result == Ok::<Option<i64>, String>(ts),
            Err(complaint) => result matches Err(text) && text@ == complaint,
        },
{
    match date {
        None => Ok(None),
        Some(date) => match timeutil::parse_local_date(date, tz) {
            Ok(ts) => Ok(Some(ts)),
            Err(error) => Err(error.message(tz.name())),
        },
    }
}

/// Resolve the zone and the dates that were asked for.
pub fn resolve_window(
    tz: Option<&str>,
    from: Option<&str>,
    to: Option<&str>,
    machine: &MachineZone,
) -> (result: Result<Window, String>)
    ensures
        window_view(result) == window_answer(
            timeutil::text_of(tz),
            timeutil::text_of(from),
            timeutil::text_of(to),
            *machine,
        ),
{
    let zone: Zone = match timeutil::resolve_timezone(tz, machine) {
        Ok(zone) => zone,
        Err(error) => {
            return Err(error.message(""));
        },
    };
    let from: Option<i64> = match resolve_bound(from, &zone) {
        Ok(from) => from,
        Err(complaint) => {
            return Err(complaint);
        },
    };
    let to: Option<i64> = match resolve_bound(to, &zone) {
        Ok(to) => to,
        Err(complaint) => {
            return Err(complaint);
        },
    };
    if let (Some(first), Some(last)) = (from, to) {
        if last <= first {
            return Err(String::from_str("--to must be after --from"));
        }
    }
    Ok(Window { tz: zone, from, to })
}

/// The view of an optional text.
pub open spec fn given(text: Option<String>) -> Option<Seq<char>> {
    match text {
        Some(text) => Some(text@),
        None => None,
    }
}

pub(crate) fn as_given(text: &Option<String>) -> (view: Option<&str>)
    ensures
        timeutil::text_of(view) == given(*text),
{
    match text {
        Some(text) => Some(text.as_str()),
        None => None,
    }
}

// ---------------------------------------------------------------------------------------
// The heatmap report
// ---------------------------------------------------------------------------------------

/// What was typed for the heatmap report.
#[derive(Debug)]
pub struct Args {
    pub step_watts: Number,
    /// The top of the axis, and whether it is at least one step.
    pub max_watts: Option<(Number, bool)>,
    pub max_quantile: Number,
    pub min_probability: Number,
    pub gamma: Number,
    pub levels: usize,
    pub max_gap: i64,
    pub gap_threshold_hours: Number,
    /// The same threshold in whole seconds.
    pub gap_threshold_seconds: i64,
    pub scale: Option<Number>,
    pub threads: Option<usize>,
    pub keep_negative: bool,
    pub tz: Option<String>,
    pub from: Option<String>,
    pub to: Option<String>,
}

/// Command line arguments after validation, with dates and timezones resolved.
#[derive(Debug)]
pub struct Config {
    pub window: Window,
    pub clamp_negative: bool,
    /// Outages at least this long are reported.
    pub gap_threshold_seconds: i64,
}

/// What is wrong with the top of the axis, where one was given.
pub open spec fn max_watts_rule(max: Option<(Number, bool)>, step: Number) -> Option<Seq<char>> {
    match max {
        None => None,
        Some((max, holds_a_step)) => first_of(
            positive_rule("--max-watts"@, max),
            if holds_a_step {
                None
            } else {
                Some(
                    "--max-watts ("@ + max.text@ + ") must be at least one --step-watts ("@
                        + step.text@ + ")"@,
                )
            },
        ),
    }
}

fn check_max_watts(max: &Option<(Number, bool)>, step: &Number) -> (complaint: Option<String>)
    ensures
        said(complaint) == max_watts_rule(*max, *step),
{
    match max {
        None => None,
        Some((max, holds_a_step)) => {
            if let Some(complaint) = positive("--max-watts", max) {
                return Some(complaint);
            }
            if *holds_a_step {
                return None;
            }
            let mut out: String = String::from_str("--max-watts (");
            out.append(max.text.as_str());
            out.append(") must be at least one --step-watts (");
            out.append(step.text.as_str());
            out.append(")");
            Some(out)
        },
    }
}

/// What is wrong with the number of colour levels.
pub open spec fn levels_rule(levels: nat) -> Option<Seq<char>> {
    if color::MIN_LEVELS <= levels <= color::MAX_LEVELS {
        None
    } else {
        Some(
            "--levels must be between "@
        + text::decimal(color::MIN_LEVELS as nat)
        + " and "@
        + text::decimal(color::MAX_LEVELS as nat)
        + ", got "@
        + text::decimal(levels),
        )
    }
}

fn check_levels(levels: usize) -> (complaint: Option<String>)
    ensures
        said(complaint) == levels_rule(levels as nat),
{
    if color::MIN_LEVELS <= levels && levels <= color::MAX_LEVELS {
        return None;
    }
    let mut out: String = String::from_str("--levels must be between ");
    text::push_number(&mut out, color::MIN_LEVELS as u64);
    out.append(" and ");
    text::push_number(&mut out, color::MAX_LEVELS as u64);
    out.append(", got ");
    text::push_number(&mut out, levels as u64);
    Some(out)
}

impl Args {
    /// The first thing that is wrong with the numbers, in the order they are looked at.
    pub open spec fn complaint(self) -> Option<Seq<char>> {
        first_of(
            positive_rule("--step-watts"@, self.step_watts),
            first_of(
                max_watts_rule(self.max_watts, self.step_watts),
                first_of(
                    share_rule("--max-quantile"@, self.max_quantile),
                    first_of(
                        share_rule("--min-probability"@, self.min_probability),
                        first_of(
                            positive_rule("--gamma"@, self.gamma),
                            first_of(
                                levels_rule(self.levels as nat),
                                first_of(
                                    max_gap_rule(self.max_gap as int),
                                    first_of(
                                        positive_rule(
                                            "--gap-threshold-hours"@,
                                            self.gap_threshold_hours,
                                        ),
                                        first_of(
                                            scale_rule(self.scale),
                                            threads_rule(self.threads),
                                        ),
                                    ),
                                ),
                            ),
                        ),
                    ),
                ),
            ),
        )
    }

    fn complain(&self) -> (complaint: Option<String>)
        ensures
            said(complaint) == self.complaint(),
    {
        if let Some(complaint) = positive("--step-watts", &self.step_watts) {
            return Some(complaint);
        }
        if let Some(complaint) = check_max_watts(&self.max_watts, &self.step_watts) {
            return Some(complaint);
        }
        if let Some(complaint) = share("--max-quantile", &self.max_quantile) {
            return Some(complaint);
        }
        if let Some(complaint) = share("--min-probability", &self.min_probability) {
            return Some(complaint);
        }
        if let Some(complaint) = positive("--gamma", &self.gamma) {
            return Some(complaint);
        }
        if let Some(complaint) = check_levels(self.levels) {
            return Some(complaint);
        }
        if let Some(complaint) = check_max_gap(self.max_gap) {
            return Some(complaint);
        }
        if let Some(complaint) = positive("--gap-threshold-hours", &self.gap_threshold_hours) {
            return Some(complaint);
        }
        if let Some(complaint) = check_scale(&self.scale) {
            return Some(complaint);
        }
        check_threads(self.threads)
    }

    /// Check everything that cannot be expressed in the declaration of the arguments and
    /// resolve the timezone-dependent values.
    pub fn resolve(&self, machine: &MachineZone) -> (result: Result<Config, String>)
        ensures
            match self.complaint() {
                Some(complaint) => result matches Err(text) && text@ == complaint,
                None => match window_answer(
                    given(self.tz),
                    given(self.from),
                    given(self.to),
                    *machine,
                ) {
                    Err(complaint) => result matches Err(text) && text@ == complaint,
                    Ok((zone, from, to)) => result matches Ok(config) && config.window.tz@ == zone
                        && config.window.from == from && config.window.to == to
                        && config.clamp_negative == !self.keep_negative
                        && config.gap_threshold_seconds == self.gap_threshold_seconds,
                },
            },
    {
        if let Some(complaint) = self.complain() {
            return Err(complaint);
        }
        match resolve_window(
            as_given(&self.tz),
            as_given(&self.from),
            as_given(&self.to),
            machine,
        ) {
            Err(complaint) => Err(complaint),
            Ok(window) => Ok(
                Config {
                    window,
                    clamp_negative: !self.keep_negative,
                    gap_threshold_seconds: self.gap_threshold_seconds,
                },
            ),
        }
    }
}

// ---------------------------------------------------------------------------------------
// What is accepted
// ---------------------------------------------------------------------------------------

/// A complaint about a number starts with the option it was given for and ends with what was
/// typed.
pub proof fn complaints_name_the_option(name: Seq<char>, number: Number, complaint: Seq<char>)
    requires
        positive_rule(name, number) == Some(complaint) || not_negative_rule(name, number) == Some(
            complaint,
        ) || share_rule(name, number) == Some(complaint) || positive_share_rule(name, number)
            == Some(complaint) || percentage_rule(name, number) == Some(complaint) || factor_rule(
            name,
            number,
        ) == Some(complaint),
    ensures
        complaint.take(name.len() as int) == name,
        text::has_suffix(complaint, number.text@),
{
    assert(complaint.take(name.len() as int) =~= name);
    assert(complaint.skip(complaint.len() - number.text@.len()) =~= number.text@);
}

/// A number that is not finite is never accepted, a negative one only as a factor, and zero
/// wherever a number need not be positive and is no factor.
pub proof fn numbers_are_accepted_by_their_sign(name: Seq<char>, number: Number)
    ensures
        number.sign is NotFinite ==> positive_rule(name, number) is Some && not_negative_rule(
            name,
            number,
        ) is Some && share_rule(name, number) is Some && positive_share_rule(name, number) is Some
            && percentage_rule(name, number) is Some && factor_rule(name, number) is Some,
        number.sign is Negative ==> positive_rule(name, number) is Some && not_negative_rule(
            name,
            number,
        ) is Some && share_rule(name, number) is Some && positive_share_rule(name, number) is Some
            && percentage_rule(name, number) is Some && factor_rule(name, number) is None,
        number.sign is Zero ==> positive_rule(name, number) is Some && not_negative_rule(
            name,
            number,
        ) is None && (share_rule(name, number) is None <==> number.at_most_one)
            && positive_share_rule(name, number) is Some && (percentage_rule(name, number) is None
            <==> number.below_hundred) && factor_rule(name, number) is Some,
        number.sign is Positive ==> positive_rule(name, number) is None && not_negative_rule(
            name,
            number,
        ) is None && (share_rule(name, number) is None <==> number.at_most_one) && (
        positive_share_rule(name, number) is None <==> number.at_most_one) && (percentage_rule(
            name,
            number,
        ) is None <==> number.below_hundred) && factor_rule(name, number) is None,
{
}

/// Arguments are accepted exactly when everything about them is right.
pub proof fn arguments_are_accepted_when_all_are_right(args: Args)
    ensures
        args.complaint() is None <==> {
            &&& args.step_watts.sign is Positive
            &&& args.max_watts matches Some((max, holds_a_step)) ==> max.sign is Positive
                && holds_a_step
            &&& (args.max_quantile.sign is Zero || args.max_quantile.sign is Positive)
                && args.max_quantile.at_most_one
            &&& (args.min_probability.sign is Zero || args.min_probability.sign is Positive)
                && args.min_probability.at_most_one
            &&& args.gamma.sign is Positive
            &&& 3 <= args.levels <= 16
            &&& args.max_gap > 0
            &&& args.gap_threshold_hours.sign is Positive
            &&& args.scale matches Some(scale) ==> scale.sign is Positive || scale.sign is Negative
            &&& args.threads matches Some(threads) ==> threads >= 1
        },
{
}

/// Of everything that is wrong the first thing is complained about: what comes earlier on the
/// list never gives way to what comes later.
pub proof fn the_first_wrong_thing_is_complained_about(args: Args)
    ensures
        ({
            let step = positive_rule("--step-watts"@, args.step_watts);
            let top = max_watts_rule(args.max_watts, args.step_watts);
            let quantile = share_rule("--max-quantile"@, args.max_quantile);
            let probability = share_rule("--min-probability"@, args.min_probability);
            let gamma = positive_rule("--gamma"@, args.gamma);
            let levels = levels_rule(args.levels as nat);
            &&& step is Some ==> args.complaint() == step
            &&& step is None && top is Some ==> args.complaint() == top
            &&& step is None && top is None && quantile is Some ==> args.complaint() == quantile
            &&& step is None && top is None && quantile is None && probability is Some
                ==> args.complaint() == probability
            &&& step is None && top is None && quantile is None && probability is None
                && gamma is Some ==> args.complaint() == gamma
            &&& step is None && top is None && quantile is None && probability is None
                && gamma is None && levels is Some ==> args.complaint() == levels
        }),
{
}

/// A window that is accepted is in a known zone, has the bounds that were given and no others,
/// each at the start of its local day, and ends after it begins.
pub proof fn accepted_windows_are_in_order(
    tz: Option<Seq<char>>,
    from: Option<Seq<char>>,
    to: Option<Seq<char>>,
    machine: MachineZone,
)
    requires
        window_answer(tz, from, to, machine) is Ok,
    ensures
        ({
            let (zone, first, last) = window_answer(tz, from, to, machine)->Ok_0;
            &&& timeutil::known_zone(zone) || zone == "UTC"@
            &&& tz is Some && tz->0 != "local"@ && tz->0 != "Local"@ && tz->0 != ""@ ==> zone
                == tz->0 && timeutil::known_zone(zone)
            &&& tz is None || tz == Some("local"@) ==> zone == timeutil::machine_zone(machine)
            &&& first is Some <==> from is Some
            &&& last is Some <==> to is Some
            &&& first is Some && last is Some ==> first->0 < last->0
            &&& from matches Some(date) ==> (timeutil::day_of_date(
                text::trimmed(date),
                "%Y-%m-%d"@,
            ) matches Some(day) && first == timeutil::start_of_local_day(zone, day as int))
            &&& to matches Some(date) ==> (timeutil::day_of_date(
                text::trimmed(date),
                "%Y-%m-%d"@,
            ) matches Some(day) && last == timeutil::start_of_local_day(zone, day as int))
        }),
{
    timeutil::the_machine_is_asked_in_order(machine);
}

/// Without dates there is nothing to complain about but the zone.
pub proof fn windows_without_dates_are_open(tz: Option<Seq<char>>, machine: MachineZone)
    ensures
        window_answer(tz, None, None, machine) matches Ok((zone, first, last)) ==> first is None
            && last is None,
        window_answer(tz, None, None, machine) is Err <==> (tz matches Some(name)
            && !timeutil::known_zone(name) && name != "local"@ && name != "Local"@ && name != ""@),
{
}

/// Whatever is in order is accepted: a zone that is known, dates that exist in it, and no end
/// that comes before the beginning or with it.
pub proof fn windows_in_order_are_accepted(
    tz: Option<Seq<char>>,
    from: Option<Seq<char>>,
    to: Option<Seq<char>>,
    machine: MachineZone,
)
    requires
        zone_answer(tz, machine) is Ok,
        bound_answer(from, zone_answer(tz, machine)->Ok_0) is Ok,
        bound_answer(to, zone_answer(tz, machine)->Ok_0) is Ok,
    ensures
        ({
            let zone = zone_answer(tz, machine)->Ok_0;
            let first = bound_answer(from, zone)->Ok_0;
            let last = bound_answer(to, zone)->Ok_0;
            window_answer(tz, from, to, machine) is Ok <==> first is None || last is None
                || first->0 < last->0
        }),
{
}

} // verus!
