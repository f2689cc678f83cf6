//! The validation of everything the user can type for the payback report.

use vstd::prelude::*;

use crate::cli;
use crate::cli::{Number, Window};
use crate::storage::sweep;
use crate::text;
use crate::timeutil::MachineZone;

verus! {

/// One battery size that was listed.
#[derive(Debug)]
pub struct Size {
    pub number: Number,
    /// An integer that orders as the sizes do; equal sizes have the same.
    pub rank: i64,
}

/// The battery sizes that were asked for.
#[derive(Debug)]
pub enum Sizes {
    /// Exact sizes.
    Listed(Vec<Size>),
    /// Every size of a range, from the smallest on.
    Range {
        min: Number,
        max: Number,
        /// Whether the largest is at least the smallest.
        ordered: bool,
        step: Number,
        /// How many sizes the range holds.
        count: usize,
    },
}

/// What was typed for the payback report.
#[derive(Debug)]
pub struct Args {
    pub price_per_kwh: Number,
    pub cost_per_kwh: Number,
    pub feed_in_price: Number,
    pub base_cost: Number,
    pub round_trip: Number,
    pub usable_fraction: Number,
    pub min_slot_coverage: Number,
    pub max_charge_kw: Option<Number>,
    pub max_discharge_kw: Option<Number>,
    pub slot_minutes: i64,
    pub sensitivity: Number,
    pub target_payback_years: Number,
    pub gap_threshold_hours: Number,
    pub max_gap: i64,
    pub scale: Option<Number>,
    pub threads: Option<usize>,
    pub sizes: Sizes,
    pub tz: Option<String>,
    pub from: Option<String>,
    pub to: Option<String>,
}

/// Arguments after validation, with the dates and the slot resolved.
#[derive(Debug)]
pub struct Config {
    pub window: Window,
    pub slot_seconds: i64,
    /// The sizes to try, from the smallest to the largest and each once: their positions
    /// among those that were listed or in the range.
    pub positions: Vec<usize>,
}

/// What is wrong with a power limit, where one was given.
pub open spec fn limit_rule(name: Seq<char>, limit: Option<Number>) -> Option<Seq<char>> {
    match limit {
        Some(limit) => cli::positive_rule(name, limit),
        None => None,
    }
}

fn check_limit(name: &str, limit: &Option<Number>) -> (complaint: Option<String>)
    ensures
        cli::said(complaint) == limit_rule(name@, *limit),
{
    match limit {
        Some(limit) => cli::positive(name, limit),
        None => None,
    }
}

/// Whether slots of that many minutes make up an hour.
pub open spec fn divides_an_hour(minutes: int) -> bool {
    minutes > 0 && 60int % minutes == 0
}

/// What is wrong with the length of a slot.
pub open spec fn slot_rule(minutes: int) -> Option<Seq<char>> {
    if divides_an_hour(minutes) {
        None
    } else {
        Some(
            "--slot-minutes must divide an hour (1, 2, 3, 4, 5, 6, 10, 12, 15, 20, 30 or 60), got "@
                + text::signed_decimal(minutes),
        )
    }
}

fn check_slot(minutes: i64) -> (complaint: Option<String>)
    ensures
        cli::said(complaint) == slot_rule(minutes as int),
{
    if minutes > 0 && 60 % minutes == 0 {
        return None;
    }
    let mut out: String = String::from_str(
        "--slot-minutes must divide an hour (1, 2, 3, 4, 5, 6, 10, 12, 15, 20, 30 or 60), got ",
    );
    text::push_signed(&mut out, minutes);
    Some(out)
}

/// What is wrong with the first `count` of the sizes listed.
pub open spec fn listed_rule(sizes: Seq<Size>, count: nat) -> Option<Seq<char>>
    decreases count,
{
    if count == 0 {
        None
    } else {
        cli::first_of(
            listed_rule(sizes, (count - 1) as nat),
            if sizes[count - 1].number.sign is Positive {
                None
            } else {
                Some("--sizes must be positive numbers, got "@ + sizes[count - 1].number.text@)
            },
        )
    }
}

/// What is wrong with the sizes asked for.
pub open spec fn sizes_rule(sizes: Sizes) -> Option<Seq<char>> {
    match sizes {
        Sizes::Listed(sizes) => if sizes@.len() == 0 {
            Some("--sizes needs at least one capacity"@)
        } else {
            listed_rule(sizes@, sizes@.len())
        },
        Sizes::Range { min, max, ordered, step, count } => cli::first_of(
            cli::positive_rule("--min-size"@, min),
            if !ordered {
                Some(
                    "--max-size ("@ + max.text@ + ") must be at least --min-size ("@ + min.text@
                        + ")"@,
                )
            } else {
                cli::first_of(
                    cli::positive_rule("--size-step"@, step),
                    if count == 0 {
                        Some("the size range covers no battery at all"@)
                    } else {
                        None
                    },
                )
            },
        ),
    }
}

/// A complaint about one of the sizes listed stays the first when more are looked at.
proof fn complaints_last(sizes: Seq<Size>, from: nat, to: nat)
    requires
        from <= to,
        listed_rule(sizes, from) is Some,
    ensures
        listed_rule(sizes, to) == listed_rule(sizes, from),
    decreases to,
{
    if from < to {
        complaints_last(sizes, from, (to - 1) as nat);
    }
}

fn check_listed(sizes: &[Size]) -> (complaint: Option<String>)
    ensures
        cli::said(complaint) == listed_rule(sizes@, sizes@.len()),
{
    let mut i: usize = 0;
    while i < sizes.len()
        invariant
            i <= sizes@.len(),
            listed_rule(sizes@, i as nat) is None,
        decreases sizes@.len() - i,
    {
        if !sizes[i].number.is_positive() {
            let mut out: String = String::from_str("--sizes must be positive numbers, got ");
            out.append(sizes[i].number.text.as_str());
            proof {
                assert(listed_rule(sizes@, (i + 1) as nat) == Some(out@));
                complaints_last(sizes@, (i + 1) as nat, sizes@.len());
            }
            return Some(out);
        }
        i = i + 1;
    }
    None
}

fn check_sizes(sizes: &Sizes) -> (complaint: Option<String>)
    ensures
        cli::said(complaint) == sizes_rule(*sizes),
{
    match sizes {
        Sizes::Listed(sizes) => {
            if sizes.len() == 0 {
                return Some(String::from_str("--sizes needs at least one capacity"));
            }
            check_listed(sizes.as_slice())
        },
        Sizes::Range { min, max, ordered, step, count } => {
            if let Some(complaint) = cli::positive("--min-size", min) {
                return Some(complaint);
            }
            if !*ordered {
                let mut out: String = String::from_str("--max-size (");
                out.append(max.text.as_str());
                out.append(") must be at least --min-size (");
                out.append(min.text.as_str());
                out.append(")");
                return Some(out);
            }
            if let Some(complaint) = cli::positive("--size-step", step) {
                return Some(complaint);
            }
            if *count == 0 {
                return Some(String::from_str("the size range covers no battery at all"));
            }
            None
        },
    }
}

/// The ranks of the sizes listed.
pub open spec fn ranks_of(sizes: Seq<Size>) -> Seq<i64> {
    Seq::new(sizes.len(), |i: int| sizes[i].rank)
}

/// Whether positions say which sizes to try, and in what order: of those listed every one
/// once, from the smallest to the largest; of a range all of it, as it runs.
pub open spec fn are_sizes_to_try(positions: Seq<usize>, sizes: Sizes) -> bool {
    match sizes {
        Sizes::Listed(sizes) => sweep::are_distinct_ascending(positions, ranks_of(sizes@)),
        Sizes::Range { count, .. } => positions == Seq::new(count as nat, |i: int| i as usize),
    }
}

/// The sizes to try, from the smallest to the largest and each once.
fn sizes_to_try(sizes: &Sizes) -> (positions: Vec<usize>)
    ensures
        are_sizes_to_try(positions@, *sizes),
{
    match sizes {
        Sizes::Listed(sizes) => {
            let mut ranks: Vec<i64> = Vec::new();
            let mut i: usize = 0;
            while i < sizes.len()
                invariant
                    i <= sizes@.len(),
                    ranks@.len() == i,
                    forall|k: int| 0 <= k < i ==> #[trigger] ranks@[k] == sizes@[k].rank,
                decreases sizes@.len() - i,
            {
                ranks.push(sizes[i].rank);
                i = i + 1;
            }
            assert(ranks@ =~= ranks_of(sizes@));
            sweep::distinct_ascending(ranks.as_slice())
        },
        Sizes::Range { count, .. } => {
            let mut positions: Vec<usize> = Vec::new();
            let mut i: usize = 0;
            while i < *count
                invariant
                    i <= *count,
                    positions@.len() == i,
                    forall|k: int| 0 <= k < i ==> #[trigger] positions@[k] == k,
                decreases *count - i,
            {
                positions.push(i);
                i = i + 1;
            }
            assert(positions@ =~= Seq::new(*count as nat, |i: int| i as usize));
            positions
        },
    }
}

impl Args {
    /// The first thing that is wrong with the numbers, in the order they are looked at.
    pub open spec fn complaint(self) -> Option<Seq<char>> {
        let prices = cli::first_of(
            cli::first_of(cli::positive_rule("--price-per-kwh"@, self.price_per_kwh), cli::positive_rule("--cost-per-kwh"@, self.cost_per_kwh)),
            cli::first_of(cli::not_negative_rule("--feed-in-price"@, self.feed_in_price), cli::not_negative_rule("--base-cost"@, self.base_cost)),
        );
        let battery = cli::first_of(
            cli::first_of(cli::positive_share_rule("--round-trip"@, self.round_trip), cli::positive_share_rule("--usable-fraction"@, self.usable_fraction)),
            cli::first_of(cli::positive_share_rule("--min-slot-coverage"@, self.min_slot_coverage), cli::first_of(limit_rule("--max-charge-kw"@, self.max_charge_kw), limit_rule("--max-discharge-kw"@, self.max_discharge_kw))),
        );
        let run = cli::first_of(
            cli::first_of(slot_rule(self.slot_minutes as int), cli::percentage_rule("--sensitivity"@, self.sensitivity)),
            cli::first_of(cli::positive_rule("--target-payback-years"@, self.target_payback_years), cli::positive_rule("--gap-threshold-hours"@, self.gap_threshold_hours)),
        );
        let reading = cli::first_of(
            cli::first_of(cli::max_gap_rule(self.max_gap as int), cli::scale_rule(self.scale)),
            cli::threads_rule(self.threads),
        );
        cli::first_of(
            prices,
            cli::first_of(battery, cli::first_of(run, cli::first_of(reading, sizes_rule(self.sizes)))),
        )
    }

    fn complain(&self) -> (complaint: Option<String>)
        ensures
            cli::said(complaint) == self.complaint(),
    {
        if let Some(complaint) = cli::positive("--price-per-kwh", &self.price_per_kwh) {
            return Some(complaint);
        }
        if let Some(complaint) = cli::positive("--cost-per-kwh", &self.cost_per_kwh) {
            return Some(complaint);
        }
        if let Some(complaint) = cli::not_negative("--feed-in-price", &self.feed_in_price) {
            return Some(complaint);
        }
        if let Some(complaint) = cli::not_negative("--base-cost", &self.base_cost) {
            return Some(complaint);
        }
        if let Some(complaint) = cli::positive_share("--round-trip", &self.round_trip) {
            return Some(complaint);
        }
        if let Some(complaint) = cli::positive_share("--usable-fraction", &self.usable_fraction) {
            return Some(complaint);
        }
        if let Some(complaint) = cli::positive_share("--min-slot-coverage", &self.min_slot_coverage) {
            return Some(complaint);
        }
        if let Some(complaint) = check_limit("--max-charge-kw", &self.max_charge_kw) {
            return Some(complaint);
        }
        if let Some(complaint) = check_limit("--max-discharge-kw", &self.max_discharge_kw) {
            return Some(complaint);
        }
        if let Some(complaint) = check_slot(self.slot_minutes) {
            return Some(complaint);
        }
        if let Some(complaint) = cli::percentage("--sensitivity", &self.sensitivity) {
            return Some(complaint);
        }
        if let Some(complaint) = cli::positive("--target-payback-years", &self.target_payback_years) {
            return Some(complaint);
        }
        if let Some(complaint) = cli::positive("--gap-threshold-hours", &self.gap_threshold_hours) {
            return Some(complaint);
        }
        if let Some(complaint) = cli::check_max_gap(self.max_gap) {
            return Some(complaint);
        }
        if let Some(complaint) = cli::check_scale(&self.scale) {
            return Some(complaint);
        }
        if let Some(complaint) = cli::check_threads(self.threads) {
            return Some(complaint);
        }
        check_sizes(&self.sizes)
    }

    /// Check everything the declaration of the arguments cannot express, resolve what depends
    /// on a timezone, and put the sizes to try in order.
    pub fn resolve(&self, machine: &MachineZone) -> (result: Result<Config, String>)
        ensures
            match self.complaint() {
                Some(complaint) => result matches Err(text) && text@ == complaint,
                None => match cli::window_answer(
                    cli::given(self.tz),
                    cli::given(self.from),
                    cli::given(self.to),
                    *machine,
                ) {
                    Err(complaint) => result matches Err(text) && text@ == complaint,
                    Ok((zone, from, to)) => result matches Ok(config) && config.window.tz@ == zone
                        && config.window.from == from && config.window.to == to
                        && config.slot_seconds == self.slot_minutes * 60 && divides_an_hour(
                        self.slot_minutes as int,
                    ) && are_sizes_to_try(config.positions@, self.sizes),
                },
            },
    {
        if let Some(complaint) = self.complain() {
            return Err(complaint);
        }
        proof {
            assert(divides_an_hour(self.slot_minutes as int));
            hours_hold_their_divisors(self.slot_minutes as int);
        }
        match cli::resolve_window(
            cli::as_given(&self.tz),
            cli::as_given(&self.from),
            cli::as_given(&self.to),
            machine,
        ) {
            Err(complaint) => Err(complaint),
            Ok(window) => Ok(
                Config {
                    window,
                    slot_seconds: self.slot_minutes * 60,
                    positions: sizes_to_try(&self.sizes),
                },
            ),
        }
    }
}

/// What divides an hour is no longer than one.
proof fn hours_hold_their_divisors(minutes: int)
    requires
        divides_an_hour(minutes),
    ensures
        minutes <= 60,
{
    if minutes > 60 {
        vstd::arithmetic::div_mod::lemma_small_mod(60, minutes as nat);
    }
}

/// Only slots that make up an hour are accepted: these twelve lengths, and no others.
pub proof fn twelve_lengths_divide_an_hour(minutes: int)
    ensures
        slot_rule(minutes) is None <==> (minutes == 1 || minutes == 2 || minutes == 3 || minutes
            == 4 || minutes == 5 || minutes == 6 || minutes == 10 || minutes == 12 || minutes == 15
            || minutes == 20 || minutes == 30 || minutes == 60),
{
    if divides_an_hour(minutes) {
        hours_hold_their_divisors(minutes);
        assert(minutes == 7 ==> 60int % 7 != 0);
        assert(minutes == 8 ==> 60int % 8 != 0);
        assert(minutes == 9 ==> 60int % 9 != 0);
        assert(minutes == 11 ==> 60int % 11 != 0);
        assert(12 < minutes < 15 ==> 60int % minutes != 0) by {
            assert(60int % 13 != 0 && 60int % 14 != 0);
        }
        assert(15 < minutes < 20 ==> 60int % minutes == 60 - 3 * minutes) by {
            if 15 < minutes < 20 {
                vstd::arithmetic::div_mod::lemma_fundamental_div_mod_converse(
                    60,
                    minutes,
                    3,
                    60 - 3 * minutes,
                );
            }
        }
        assert(20 < minutes < 30 ==> 60int % minutes == 60 - 2 * minutes) by {
            if 20 < minutes < 30 {
                vstd::arithmetic::div_mod::lemma_fundamental_div_mod_converse(
                    60,
                    minutes,
                    2,
                    60 - 2 * minutes,
                );
            }
        }
        assert(30 < minutes < 60 ==> 60int % minutes == 60 - minutes) by {
            if 30 < minutes < 60 {
                vstd::arithmetic::div_mod::lemma_fundamental_div_mod_converse(
                    60,
                    minutes,
                    1,
                    60 - minutes,
                );
            }
        }
    }
}

/// A list of sizes is accepted exactly when all of them are positive, and it is the first that
/// is not that is complained about.
pub proof fn every_size_has_to_be_positive(sizes: Seq<Size>, count: nat, i: int)
    requires
        0 <= i < count <= sizes.len(),
    ensures
        listed_rule(sizes, count) is None ==> sizes[i].number.sign is Positive,
        (forall|k: int| 0 <= k < count ==> (#[trigger] sizes[k]).number.sign is Positive)
            ==> listed_rule(sizes, count) is None,
        !(sizes[i].number.sign is Positive) && (forall|k: int|
            0 <= k < i ==> (#[trigger] sizes[k]).number.sign is Positive) ==> (listed_rule(
            sizes,
            count,
        ) matches Some(complaint) && text::has_suffix(complaint, sizes[i].number.text@)),
    decreases count,
{
    let last = count - 1;
    if last > 0 {
        every_size_has_to_be_positive(
            sizes,
            last as nat,
            if i < last {
                i
            } else {
                0
            },
        );
    }
    if i == last {
        if forall|k: int| 0 <= k < i ==> (#[trigger] sizes[k]).number.sign is Positive {
            assert(listed_rule(sizes, last as nat) is None) by {
                if last > 0 {
                    every_size_has_to_be_positive(sizes, last as nat, 0);
                }
            }
            let complaint = "--sizes must be positive numbers, got "@ + sizes[last].number.text@;
            assert(complaint.skip(complaint.len() - sizes[last].number.text@.len())
                =~= sizes[last].number.text@);
        }
    }
}

/// Arguments are accepted exactly when everything about them is right.
pub proof fn arguments_are_accepted_when_all_are_right(args: Args)
    ensures
        args.complaint() is None <==> {
            &&& args.price_per_kwh.sign is Positive
            &&& args.cost_per_kwh.sign is Positive
            &&& args.feed_in_price.sign is Zero || args.feed_in_price.sign is Positive
            &&& args.base_cost.sign is Zero || args.base_cost.sign is Positive
            &&& args.round_trip.sign is Positive && args.round_trip.at_most_one
            &&& args.usable_fraction.sign is Positive && args.usable_fraction.at_most_one
            &&& args.min_slot_coverage.sign is Positive && args.min_slot_coverage.at_most_one
            &&& args.max_charge_kw matches Some(limit) ==> limit.sign is Positive
            &&& args.max_discharge_kw matches Some(limit) ==> limit.sign is Positive
            &&& args.slot_minutes > 0 && 60int % args.slot_minutes as int == 0
            &&& (args.sensitivity.sign is Zero || args.sensitivity.sign is Positive)
                && args.sensitivity.below_hundred
            &&& args.target_payback_years.sign is Positive
            &&& args.gap_threshold_hours.sign is Positive
            &&& args.max_gap > 0
            &&& args.scale matches Some(scale) ==> scale.sign is Positive || scale.sign is Negative
            &&& args.threads matches Some(threads) ==> threads >= 1
            &&& match args.sizes {
                Sizes::Listed(sizes) => sizes@.len() > 0 && forall|k: int|
                    0 <= k < sizes@.len() ==> (#[trigger] sizes@[k]).number.sign is Positive,
                Sizes::Range { min, max, ordered, step, count } => min.sign is Positive && ordered
                    && step.sign is Positive && count > 0,
            }
        },
{
    if let Sizes::Listed(sizes) = args.sizes {
        if sizes@.len() > 0 {
            every_size_has_to_be_positive(sizes@, sizes@.len(), 0);
            if listed_rule(sizes@, sizes@.len()) is None {
                assert forall|k: int| 0 <= k < sizes@.len() implies (
                #[trigger] sizes@[k]).number.sign is Positive by {
                    every_size_has_to_be_positive(sizes@, sizes@.len(), k);
                }
            }
        }
    }
}

/// The sizes to try are tried from the smallest to the largest and each once: of a list every
/// one that was asked for, of a range as many as it holds.
pub proof fn sizes_are_tried_in_order(positions: Seq<usize>, sizes: Sizes, i: int)
    requires
        are_sizes_to_try(positions, sizes),
        0 < i < positions.len(),
    ensures
        match sizes {
            Sizes::Listed(listed) => positions[i] < listed@.len() && listed@[positions[i
                - 1] as int].rank < listed@[positions[i] as int].rank,
            Sizes::Range { count, .. } => positions.len() == count && positions[i] == positions[i
                - 1] + 1 && positions[0] == 0,
        },
{
    if let Sizes::Listed(listed) = sizes {
        let ranks = ranks_of(listed@);
        sweep::the_sizes_to_try_ascend(positions, ranks, positions[0] as int, i);
    }
}

} // verus!
