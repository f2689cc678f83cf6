//! Lining the two sensors up slot by slot.
//!
//! A battery can only be simulated over time when *both* sides of the meter were
//! recorded: an hour with import readings but no export readings says nothing about the
//! surplus a battery would have stored. Slots that fail that test are dropped and
//! counted, never quietly treated as zero.

use vstd::prelude::*;

use crate::model;
use crate::model::Sample;
use crate::storage::series::{SlotGrid, Slots};
use crate::sums;

verus! {

/// One slot both sensors covered.
#[derive(Debug, Clone, Copy, PartialEq, Eq, Structural)]
pub struct PairedStep {
    /// The slot, by which the energies of both sensors are found.
    pub index: usize,
    pub start_ts: i64,
    /// Time both sensors were observed for, in seconds.
    pub seconds: u64,
}

impl PairedStep {
    /// The step as a sample, so [`crate::coverage`] can describe the paired timeline. It
    /// lasts at least one second.
    pub fn as_sample<W>(&self, watts: W) -> (sample: Sample<W>)
        requires
            self.start_ts + model::later(self.seconds as int, 1) <= i64::MAX,
        ensures
            sample == (Sample {
                start_ts: self.start_ts,
                end_ts: (self.start_ts + model::later(self.seconds as int, 1)) as i64,
                watts,
            }),
    {
        let seconds: u64 = if self.seconds >= 1 {
            self.seconds
        } else {
            1
        };
        Sample::new(self.start_ts, (self.start_ts as i128 + seconds as i128) as i64, watts)
    }
}

/// What becomes of a slot.
#[derive(Debug, Clone, Copy, PartialEq, Eq, Structural)]
pub enum Fate {
    /// Neither sensor was recording: the slot simply is not part of the history.
    Absent,
    /// Only one sensor recorded it at all.
    Unpaired,
    /// Both sensors touched it, but one of them too briefly to trust.
    Partial,
    /// Both sensors covered it.
    Kept,
}

/// What becomes of a slot that the sensors covered for so long, when `needed` seconds of
/// each are asked for.
pub open spec fn fate_of(import: nat, export: nat, needed: nat) -> Fate {
    if import == 0 && export == 0 {
        Fate::Absent
    } else if import == 0 || export == 0 {
        Fate::Unpaired
    } else if import < needed || export < needed {
        Fate::Partial
    } else {
        Fate::Kept
    }
}

/// What becomes of a slot that the sensors covered for so long.
pub fn fate(import: u64, export: u64, needed: u64) -> (fate: Fate)
    ensures
        fate == fate_of(import as nat, export as nat, needed as nat),
{
    if import == 0 && export == 0 {
        Fate::Absent
    } else if import == 0 || export == 0 {
        Fate::Unpaired
    } else if import < needed || export < needed {
        Fate::Partial
    } else {
        Fate::Kept
    }
}

/// The timeline the simulation runs on, plus what had to be left out of it.
#[derive(Debug)]
pub struct Paired {
    pub steps: Vec<PairedStep>,
    pub slot_seconds: i64,
    /// Slots both sensors touched, but one of them too briefly to trust.
    pub dropped_partial: usize,
    /// Slots only one sensor recorded at all.
    pub dropped_unpaired: usize,
    /// Time the paired steps cover, in seconds - the basis for annualising savings.
    pub observed_seconds: u64,
}

impl Paired {
    pub fn is_empty(&self) -> (empty: bool)
        ensures
            empty == (self.steps@.len() == 0),
    {
        self.steps.len() == 0
    }

    /// The steps as samples, each for the time both sensors were observed.
    pub fn samples(&self) -> (samples: Vec<Sample<()>>)
        requires
            forall|i: int|
                0 <= i < self.steps@.len() ==> (#[trigger] self.steps@[i]).start_ts + model::later(
                    self.steps@[i].seconds as int,
                    1,
                ) <= i64::MAX,
        ensures
            samples@.len() == self.steps@.len(),
            forall|i: int|
                0 <= i < samples@.len() ==> (#[trigger] samples@[i]).start_ts
                    == self.steps@[i].start_ts && samples@[i].end_ts == self.steps@[i].start_ts
                    + model::later(self.steps@[i].seconds as int, 1),
    {
        let mut samples: Vec<Sample<()>> = Vec::new();
        let mut i: usize = 0;
        while i < self.steps.len()
            invariant
                i <= self.steps@.len(),
                forall|i: int|
                    0 <= i < self.steps@.len() ==> (#[trigger] self.steps@[i]).start_ts
                        + model::later(self.steps@[i].seconds as int, 1) <= i64::MAX,
                samples@.len() == i,
                forall|k: int|
                    0 <= k < i ==> (#[trigger] samples@[k]).start_ts == self.steps@[k].start_ts
                        && samples@[k].end_ts == self.steps@[k].start_ts + model::later(
                        self.steps@[k].seconds as int,
                        1,
                    ),
            decreases self.steps@.len() - i,
        {
            samples.push(self.steps[i].as_sample(()));
            i = i + 1;
        }
        samples
    }

    /// Slots that were dropped for either reason.
    pub fn dropped(&self) -> (slots: usize)
        requires
            self.dropped_partial + self.dropped_unpaired <= usize::MAX,
        ensures
            slots == self.dropped_partial + self.dropped_unpaired,
    {
        self.dropped_partial + self.dropped_unpaired
    }
}

/// Slots of a fate among the first `count`.
pub open spec fn slots_with_fate(
    import: Seq<nat>,
    export: Seq<nat>,
    needed: nat,
    count: nat,
    fate: Fate,
) -> nat {
    sums::count_where(count, |i: int| fate_of(import[i], export[i], needed) == fate)
}

/// The step that a kept slot becomes: it claims the time both sensors were watched.
pub open spec fn step_of(
    import: Seq<nat>,
    export: Seq<nat>,
    slots: SlotGrid,
    index: int,
) -> PairedStep {
    PairedStep {
        index: index as usize,
        start_ts: slots.boundary(index) as i64,
        seconds: model::earlier(import[index] as int, export[index] as int) as u64,
    }
}

/// The steps that the first `count` slots leave, in order.
pub open spec fn steps_of(
    import: Seq<nat>,
    export: Seq<nat>,
    slots: SlotGrid,
    needed: nat,
    count: nat,
) -> Seq<PairedStep>
    decreases count,
{
    if count == 0 {
        Seq::empty()
    } else {
        let rest = steps_of(import, export, slots, needed, (count - 1) as nat);
        if fate_of(import[count - 1], export[count - 1], needed) is Kept {
            rest.push(step_of(import, export, slots, count - 1))
        } else {
            rest
        }
    }
}

/// Seconds of a list of steps.
pub open spec fn step_seconds(steps: Seq<PairedStep>) -> int
    decreases steps.len(),
{
    if steps.len() == 0 {
        0
    } else {
        step_seconds(steps.drop_last()) + steps.last().seconds
    }
}

/// Pair two accumulated series, keeping the slots both sensors covered for at least
/// `needed` seconds.
pub fn pair(import: &Slots, export: &Slots, needed: u64) -> (paired: Paired)
    requires
        import.wf(),
        export.wf(),
        import.slots() == export.slots(),
    ensures
        paired.steps@ == steps_of(
            import@,
            export@,
            import.slots(),
            needed as nat,
            import.slots().count(),
        ),
        paired.slot_seconds == import.slots().slot(),
        paired.dropped_partial == slots_with_fate(
            import@,
            export@,
            needed as nat,
            import.slots().count(),
            Fate::Partial,
        ),
        paired.dropped_unpaired == slots_with_fate(
            import@,
            export@,
            needed as nat,
            import.slots().count(),
            Fate::Unpaired,
        ),
        paired.dropped_partial + paired.dropped_unpaired <= import.slots().count(),
        paired.observed_seconds == step_seconds(paired.steps@),
{
    let grid: SlotGrid = import.grid();
    let ghost (a, b) = (import@, export@);
    let ghost is_partial = |i: int| fate_of(a[i], b[i], needed as nat) == Fate::Partial;
    let ghost is_unpaired = |i: int| fate_of(a[i], b[i], needed as nat) == Fate::Unpaired;
    let mut steps: Vec<PairedStep> = Vec::new();
    let mut dropped_partial: usize = 0;
    let mut dropped_unpaired: usize = 0;
    let mut observed_seconds: u64 = 0;
    let mut index: usize = 0;
    while index < grid.len()
        invariant
            import.wf(),
            export.wf(),
            import.slots() == export.slots(),
            grid == import.slots(),
            a == import@,
            b == export@,
            is_partial == (|i: int| fate_of(a[i], b[i], needed as nat) == Fate::Partial),
            is_unpaired == (|i: int| fate_of(a[i], b[i], needed as nat) == Fate::Unpaired),
            index <= grid.count(),
            steps@ == steps_of(a, b, grid, needed as nat, index as nat),
            dropped_partial == sums::count_where(index as nat, is_partial),
            dropped_unpaired == sums::count_where(index as nat, is_unpaired),
            dropped_partial + dropped_unpaired <= index,
            observed_seconds == step_seconds(steps@),
            observed_seconds <= sums::sum(a.take(index as int)),
        decreases grid.count() - index,
    {
        let import_seconds: u64 = import.seconds(index);
        let export_seconds: u64 = export.seconds(index);
        let ghost before = steps@;
        proof {
            sums::sum_bounds(a, index as int);
            sums::sum_of_next(a, index as int);
            let fate = fate_of(a[index as int], b[index as int], needed as nat);
            assert(is_partial(index as int) == (fate == Fate::Partial));
            assert(is_unpaired(index as int) == (fate == Fate::Unpaired));
            assert(grid.boundary(index as int) <= grid.boundary(grid.count() as int)
                && grid.boundary(index as int) >= grid.origin()) by {
                let s = grid.slot();
                assert(0 <= index * s <= grid.count() * s) by (nonlinear_arith)
                    requires
                        0 <= index <= grid.count(),
                        s >= 1,
                ;
            }
        }
        match fate(import_seconds, export_seconds, needed) {
            Fate::Absent => {},
            Fate::Partial => {
                dropped_partial = dropped_partial + 1;
            },
            Fate::Unpaired => {
                dropped_unpaired = dropped_unpaired + 1;
            },
            Fate::Kept => {
                let seconds: u64 = if import_seconds <= export_seconds {
                    import_seconds
                } else {
                    export_seconds
                };
                let step: PairedStep = PairedStep {
                    index,
                    start_ts: grid.start_of(index),
                    seconds,
                };
                observed_seconds = observed_seconds + seconds;
                steps.push(step);
                proof {
                    assert(steps@.drop_last() =~= before);
                }
            },
        }
        index = index + 1;
    }
    Paired {
        steps,
        slot_seconds: grid.slot_seconds(),
        dropped_partial,
        dropped_unpaired,
        observed_seconds,
    }
}

/// However little is asked of a slot, it only becomes a step where both sensors recorded it:
/// the step lasts as long as the briefer of the two did, and what one sensor alone recorded
/// is never taken for zero.
pub proof fn both_sensors_recorded_every_step(
    import: Seq<nat>,
    export: Seq<nat>,
    slots: SlotGrid,
    needed: nat,
    count: nat,
    step: int,
)
    requires
        count <= slots.count(),
        slots.count() <= usize::MAX,
        forall|i: int| 0 <= i < count ==> #[trigger] import[i] <= u64::MAX,
        0 <= step < steps_of(import, export, slots, needed, count).len(),
    ensures
        ({
            let kept = steps_of(import, export, slots, needed, count)[step];
            &&& kept.index < count
            &&& import[kept.index as int] > 0
            &&& export[kept.index as int] > 0
            &&& kept.seconds > 0
            &&& kept.seconds >= needed
        }),
    decreases count,
{
    let rest = steps_of(import, export, slots, needed, (count - 1) as nat);
    if step < rest.len() {
        both_sensors_recorded_every_step(import, export, slots, needed, (count - 1) as nat, step);
    }
}

/// Every slot has exactly one fate: those kept, dropped for either reason or absent add up
/// to the whole grid, and there is a step for each one kept.
pub proof fn every_slot_has_one_fate(
    import: Seq<nat>,
    export: Seq<nat>,
    slots: SlotGrid,
    needed: nat,
    count: nat,
)
    ensures
        slots_with_fate(import, export, needed, count, Fate::Absent) + slots_with_fate(
            import,
            export,
            needed,
            count,
            Fate::Unpaired,
        ) + slots_with_fate(import, export, needed, count, Fate::Partial) + slots_with_fate(
            import,
            export,
            needed,
            count,
            Fate::Kept,
        ) == count,
        steps_of(import, export, slots, needed, count).len() == slots_with_fate(
            import,
            export,
            needed,
            count,
            Fate::Kept,
        ),
    decreases count,
{
    if count > 0 {
        every_slot_has_one_fate(import, export, slots, needed, (count - 1) as nat);
        let last = count - 1;
        let fate = fate_of(import[last], export[last], needed);
        let absent = |i: int| fate_of(import[i], export[i], needed) == Fate::Absent;
        let unpaired = |i: int| fate_of(import[i], export[i], needed) == Fate::Unpaired;
        let partial = |i: int| fate_of(import[i], export[i], needed) == Fate::Partial;
        let kept = |i: int| fate_of(import[i], export[i], needed) == Fate::Kept;
        assert(absent(last) == (fate == Fate::Absent));
        assert(unpaired(last) == (fate == Fate::Unpaired));
        assert(partial(last) == (fate == Fate::Partial));
        assert(kept(last) == (fate == Fate::Kept));
    }
}

/// A step only claims the time both sensors were watched: it starts where its slot does, and
/// lasts no longer than either sensor was observed in it, and as long as one of them was.
pub proof fn a_step_claims_the_time_both_were_watched(
    import: Seq<nat>,
    export: Seq<nat>,
    slots: SlotGrid,
    needed: nat,
    count: nat,
    step: int,
)
    requires
        count <= slots.count(),
        slots.count() <= usize::MAX,
        forall|i: int| 0 <= i < count ==> #[trigger] import[i] <= u64::MAX,
        forall|i: int|
            0 <= i < count ==> i64::MIN <= #[trigger] slots.boundary(i) <= i64::MAX,
        0 <= step < steps_of(import, export, slots, needed, count).len(),
    ensures
        ({
            let kept = steps_of(import, export, slots, needed, count)[step];
            let index = kept.index as int;
            &&& 0 <= index < count
            &&& kept.start_ts == slots.origin() + index * slots.slot()
            &&& kept.seconds <= import[index]
            &&& kept.seconds <= export[index]
            &&& kept.seconds == import[index] || kept.seconds == export[index]
            &&& import[index] > 0
            &&& export[index] > 0
            &&& import[index] >= needed
            &&& export[index] >= needed
        }),
    decreases count,
{
    let last = count - 1;
    let rest = steps_of(import, export, slots, needed, last as nat);
    if step < rest.len() {
        a_step_claims_the_time_both_were_watched(import, export, slots, needed, last as nat, step);
    } else {
        assert(import[last] <= u64::MAX);
        assert(slots.boundary(last) == slots.origin() + last * slots.slot());
    }
}

/// Every slot that both sensors covered for long enough becomes exactly one step, in the
/// order of the slots: nothing usable is left out and nothing is used twice.
pub proof fn every_usable_slot_becomes_one_step(
    import: Seq<nat>,
    export: Seq<nat>,
    slots: SlotGrid,
    needed: nat,
    count: nat,
)
    requires
        count <= usize::MAX,
    ensures
        ({
            let steps = steps_of(import, export, slots, needed, count);
            &&& forall|index: int|
                0 <= index < count && #[trigger] import[index] > 0 && export[index] > 0
                    && import[index] >= needed && export[index] >= needed ==> exists|k: int|
                    0 <= k < steps.len() && (#[trigger] steps[k]).index == index
            &&& forall|i: int, j: int|
                0 <= i < j < steps.len() ==> (#[trigger] steps[i]).index < (
                #[trigger] steps[j]).index
            &&& forall|k: int| 0 <= k < steps.len() ==> (#[trigger] steps[k]).index < count
        }),
    decreases count,
{
    if count > 0 {
        let last = count - 1;
        every_usable_slot_becomes_one_step(import, export, slots, needed, last as nat);
        let rest = steps_of(import, export, slots, needed, last as nat);
        let steps = steps_of(import, export, slots, needed, count);
        assert forall|index: int|
            0 <= index < count && #[trigger] import[index] > 0 && export[index] > 0
                && import[index] >= needed && export[index] >= needed implies exists|k: int|
            0 <= k < steps.len() && (#[trigger] steps[k]).index == index by {
            if index < last {
                let k = choose|k: int|
                    0 <= k < rest.len() && (#[trigger] rest[k]).index == index;
                assert(steps[k].index == index);
            } else {
                assert(steps[rest.len() as int].index == index);
            }
        }
    }
}

/// The slots that are dropped are counted by what was wrong with them: those that one sensor
/// alone recorded, and those that both recorded but one of them too briefly.
pub proof fn dropped_slots_are_counted_by_their_reason(
    import: Seq<nat>,
    export: Seq<nat>,
    needed: nat,
    count: nat,
)
    ensures
        slots_with_fate(import, export, needed, count, Fate::Unpaired) == sums::count_where(
            count,
            |i: int| (import[i] == 0) != (export[i] == 0),
        ),
        slots_with_fate(import, export, needed, count, Fate::Partial) == sums::count_where(
            count,
            |i: int|
                import[i] > 0 && export[i] > 0 && (import[i] < needed || export[i] < needed),
        ),
    decreases count,
{
    if count > 0 {
        dropped_slots_are_counted_by_their_reason(import, export, needed, (count - 1) as nat);
        let last = count - 1;
        let unpaired = |i: int| fate_of(import[i], export[i], needed) == Fate::Unpaired;
        let partial = |i: int| fate_of(import[i], export[i], needed) == Fate::Partial;
        let alone = |i: int| (import[i] == 0) != (export[i] == 0);
        let brief = |i: int|
            import[i] > 0 && export[i] > 0 && (import[i] < needed || export[i] < needed);
        assert(unpaired(last) == alone(last));
        assert(partial(last) == brief(last));
    }
}

/// The time behind a timeline is that of its steps: it never exceeds what either sensor was
/// observed for.
pub proof fn no_more_time_is_claimed_than_a_sensor_was_watched(
    import: Seq<nat>,
    export: Seq<nat>,
    slots: SlotGrid,
    needed: nat,
    count: nat,
)
    requires
        count <= import.len(),
        count <= export.len(),
        forall|i: int| 0 <= i < count ==> #[trigger] import[i] <= u64::MAX,
    ensures
        step_seconds(steps_of(import, export, slots, needed, count)) <= sums::sum(
            import.take(count as int),
        ),
        step_seconds(steps_of(import, export, slots, needed, count)) <= sums::sum(
            export.take(count as int),
        ),
    decreases count,
{
    if count > 0 {
        let last = count - 1;
        no_more_time_is_claimed_than_a_sensor_was_watched(
            import,
            export,
            slots,
            needed,
            last as nat,
        );
        sums::sum_of_next(import, last);
        sums::sum_of_next(export, last);
        let rest = steps_of(import, export, slots, needed, last as nat);
        let steps = steps_of(import, export, slots, needed, count);
        assert(import[last] <= u64::MAX);
        if steps.len() > rest.len() {
            assert(steps.drop_last() =~= rest);
        }
    }
}

} // verus!
