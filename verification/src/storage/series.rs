//! Laying power readings onto time slots.
//!
//! Both grid sensors report watts, so the energy that flowed in a slot is the integral of
//! power over it, and every reading counts for the seconds it was in effect inside the
//! slot. Working in fixed slots rather than local hours is deliberate - energy accounting is
//! absolute-time work, and a flat tariff has no time-of-use windows to align a local hour
//! to.

use vstd::prelude::*;
use vstd::slice::slice_subrange;

use crate::grid;
use crate::model;
use crate::model::Sample;
use crate::sums;

verus! {

/// The common time grid both sensors are accumulated onto.
#[derive(Debug, Clone, Copy, PartialEq, Eq, Structural)]
pub struct SlotGrid {
    origin_ts: i64,
    slot_seconds: i64,
    len: usize,
}

/// The last multiple of `slot` that is not after an instant.
pub open spec fn aligned(ts: int, slot: int) -> int {
    (ts / slot) * slot
}

/// How many slots it takes from an aligned origin to the end of a span, at least one.
pub open spec fn slots_needed(first: int, last: int, slot: int) -> int {
    let span = model::later(last, first) - aligned(first, slot);
    model::later(
        span / slot + if span % slot != 0 {
            1int
        } else {
            0int
        },
        1,
    )
}

impl SlotGrid {
    /// Where the first slot starts.
    pub closed spec fn origin(self) -> int {
        self.origin_ts as int
    }

    /// The length of a slot.
    pub closed spec fn slot(self) -> int {
        self.slot_seconds as int
    }

    /// The number of slots.
    pub closed spec fn count(self) -> nat {
        self.len as nat
    }

    /// Slots have a length, every boundary is an instant, and so is the length of the grid.
    pub open spec fn wf(self) -> bool {
        &&& self.slot() >= 1
        &&& self.count() <= i64::MAX
        &&& self.boundary(self.count() as int) <= i64::MAX
        &&& self.count() * self.slot() <= i64::MAX
    }

    /// Where a slot starts, and the one before it ends.
    pub open spec fn boundary(self, index: int) -> int {
        self.origin() + index * self.slot()
    }

    /// Seconds of `[start, end)` that fall into a slot.
    pub open spec fn overlap(self, start: int, end: int, index: int) -> int {
        model::later(
            model::earlier(end, self.boundary(index + 1)) - model::later(
                start,
                self.boundary(index),
            ),
            0,
        )
    }

    /// A grid of `slot_seconds` slots covering `[first_ts, last_ts)`, aligned so that the
    /// origin is a whole multiple of the slot length. Both series must use the same grid,
    /// which is what makes their slots comparable at all.
    pub fn covering(first_ts: i64, last_ts: i64, slot_seconds: i64) -> (grid: Self)
        requires
            ({
                let slot = model::later(slot_seconds as int, 1);
                &&& i64::MIN <= first_ts - slot
                &&& model::later(last_ts as int, first_ts as int) + slot <= i64::MAX
                &&& model::later(last_ts as int, first_ts as int) - first_ts + 2 * slot <= i64::MAX
                &&& slots_needed(first_ts as int, last_ts as int, slot) <= usize::MAX
            }),
        ensures
            grid.wf(),
            grid.slot() == model::later(slot_seconds as int, 1),
            grid.origin() == aligned(first_ts as int, grid.slot()),
            grid.count() == slots_needed(first_ts as int, last_ts as int, grid.slot()),
            grid.origin() <= first_ts,
            model::later(last_ts as int, first_ts as int) <= grid.boundary(grid.count() as int),
    {
        let slot: i64 = if slot_seconds >= 1 {
            slot_seconds
        } else {
            1
        };
        proof {
            floor_bounds(first_ts as int, slot as int);
        }
        let whole: i64 = first_ts.checked_div_euclid(slot).unwrap();
        let origin: i64 = whole * slot;
        let end: i64 = if last_ts >= first_ts {
            last_ts
        } else {
            first_ts
        };
        let span: i64 = end - origin;
        proof {
            ceiling_bounds(span as int, slot as int);
        }
        let mut len: i64 = span / slot;
        if span % slot != 0 {
            len = len + 1;
        }
        if len < 1 {
            len = 1;
        }
        SlotGrid { origin_ts: origin, slot_seconds: slot, len: len as usize }
    }

    pub fn origin_ts(&self) -> (ts: i64)
        ensures
            ts == self.origin(),
    {
        self.origin_ts
    }

    pub fn slot_seconds(&self) -> (seconds: i64)
        ensures
            seconds == self.slot(),
    {
        self.slot_seconds
    }

    pub fn len(&self) -> (count: usize)
        ensures
            count == self.count(),
    {
        self.len
    }

    pub fn is_empty(&self) -> (empty: bool)
        ensures
            empty == (self.count() == 0),
    {
        self.len == 0
    }

    /// When the slot at `index` starts.
    pub fn start_of(&self, index: usize) -> (ts: i64)
        requires
            self.slot() >= 1,
            self.boundary(index as int) <= i64::MAX,
            index <= i64::MAX,
        ensures
            ts == self.boundary(index as int),
    {
        proof {
            assert(0 <= index * self.slot_seconds) by (nonlinear_arith)
                requires
                    index >= 0,
                    self.slot_seconds >= 1,
            ;
            assert(index * self.slot_seconds <= i64::MAX - self.origin_ts);
        }
        let offset: i128 = index as i128 * self.slot_seconds as i128;
        (self.origin_ts as i128 + offset) as i64
    }

    /// Which slot an instant falls in, or `None` when it is outside the grid.
    pub fn index_of(&self, ts: i64) -> (index: Option<usize>)
        requires
            self.wf(),
            ts - self.origin() <= i64::MAX,
        ensures
            match index {
                Some(index) => index < self.count() && self.boundary(index as int) <= ts
                    < self.boundary(index + 1),
                None => ts < self.origin() || self.boundary(self.count() as int) <= ts,
            },
    {
        if ts < self.origin_ts {
            return None;
        }
        let offset: i64 = ts - self.origin_ts;
        let index: i64 = offset / self.slot_seconds;
        proof {
            let (o, s) = (offset as int, self.slot_seconds as int);
            quotient_bounds(o, s);
            let n = self.len as int;
            if index < n {
            } else {
                assert(n * s <= index * s) by (nonlinear_arith)
                    requires
                        n <= index,
                        s >= 1,
                ;
            }
        }
        if (index as u64) < self.len as u64 {
            Some(index as usize)
        } else {
            None
        }
    }
}

/// An instant lies less than a slot after its aligned instant.
proof fn floor_bounds(ts: int, slot: int)
    requires
        slot >= 1,
    ensures
        ts - slot < aligned(ts, slot) <= ts,
        ts >= 0 ==> 0 <= ts / slot <= ts,
        ts < 0 ==> ts <= ts / slot <= 0,
{
    quotient_bounds(ts, slot);
    let q = ts / slot;
    if ts >= 0 {
        assert(0 <= q <= ts) by (nonlinear_arith)
            requires
                ts >= 0,
                slot >= 1,
                q * slot <= ts < (q + 1) * slot,
        ;
    } else {
        assert(ts <= q <= 0) by (nonlinear_arith)
            requires
                ts < 0,
                slot >= 1,
                q * slot <= ts < (q + 1) * slot,
        ;
    }
}

/// The defining property of the quotient.
proof fn quotient_bounds(n: int, d: int)
    requires
        d >= 1,
    ensures
        (n / d) * d <= n < (n / d + 1) * d,
        (n / d + 1) * d == (n / d) * d + d,
        n % d == n - (n / d) * d,
        n >= 0 ==> 0 <= n / d <= n,
{
    let q = n / d;
    assert(n == d * q + n % d && 0 <= n % d < d) by (nonlinear_arith)
        requires
            d >= 1,
            q == n / d,
    ;
    assert((q + 1) * d == q * d + d) by (nonlinear_arith);
    assert(d * q == q * d) by (nonlinear_arith);
    if n >= 0 {
        assert(0 <= q <= n) by (nonlinear_arith)
            requires
                n >= 0,
                d >= 1,
                q * d <= n < q * d + d,
        ;
    }
}

/// Rounding a span up to whole slots reaches its end, by less than one slot too far.
proof fn ceiling_bounds(span: int, slot: int)
    requires
        span >= 0,
        slot >= 1,
    ensures
        0 <= span / slot <= span,
        ({
            let n = model::later(
                span / slot + if span % slot != 0 {
                    1int
                } else {
                    0int
                },
                1,
            );
            span <= n * slot <= span + slot
        }),
{
    quotient_bounds(span, slot);
    if span / slot == 0 && span % slot == 0 {
        assert(1 * slot == slot);
    }
}

/// A stretch of time inside one slot.
#[derive(Debug, Clone, Copy, PartialEq, Eq, Structural)]
pub struct SlotSlice {
    pub index: usize,
    pub seconds: u64,
}

/// Whether a list of slices is what `[start, end)` leaves on the grid: in ascending order,
/// exactly the slots it overlaps, each with the seconds it overlaps by.
pub open spec fn are_slices_of(
    slices: Seq<SlotSlice>,
    start: int,
    end: int,
    slots: SlotGrid,
) -> bool {
    &&& forall|i: int, j: int|
        0 <= i < j < slices.len() ==> (#[trigger] slices[i]).index < (#[trigger] slices[j]).index
    &&& forall|i: int|
        0 <= i < slices.len() ==> (#[trigger] slices[i]).index < slots.count() && slices[i].seconds
            == slots.overlap(start, end, slices[i].index as int) && slices[i].seconds > 0
    &&& forall|index: int|
        0 <= index < slots.count() && #[trigger] slots.overlap(start, end, index) > 0
            ==> has_slot(slices, index)
}

/// Whether a slot is among the slices.
pub open spec fn has_slot(slices: Seq<SlotSlice>, index: int) -> bool {
    exists|i: int| 0 <= i < slices.len() && (#[trigger] slices[i]).index == index
}

/// Boundaries rise by one slot at a time.
proof fn boundaries_rise(slots: SlotGrid, lower: int, higher: int)
    requires
        slots.slot() >= 1,
        lower <= higher,
    ensures
        slots.boundary(lower) <= slots.boundary(higher),
        lower < higher ==> slots.boundary(lower + 1) <= slots.boundary(higher),
        slots.boundary(lower + 1) == slots.boundary(lower) + slots.slot(),
{
    let s = slots.slot();
    assert(lower * s <= higher * s) by (nonlinear_arith)
        requires
            lower <= higher,
            s >= 1,
    ;
    assert((lower + 1) * s == lower * s + s) by (nonlinear_arith);
    if lower < higher {
        assert((lower + 1) * s <= higher * s) by (nonlinear_arith)
            requires
                lower + 1 <= higher,
                s >= 1,
        ;
    }
}

/// Split `[start, end)` at slot boundaries, into the pieces that land on the grid.
pub fn for_each_slot_slice(start: i64, end: i64, slots: SlotGrid) -> (slices: Vec<SlotSlice>)
    requires
        slots.wf(),
    ensures
        are_slices_of(slices@, start as int, end as int, slots),
{
    let mut slices: Vec<SlotSlice> = Vec::new();
    let grid_end: i64 = slots.start_of(slots.len());
    let last: i64 = if end <= grid_end {
        end
    } else {
        grid_end
    };
    let mut cursor: i64 = if start >= slots.origin_ts() {
        start
    } else {
        slots.origin_ts()
    };
    // The slots before this one are done.
    let ghost mut done: int = 0;
    proof {
        assert(0 * slots.slot() == 0) by (nonlinear_arith);
        if cursor < last {
            let offset = cursor - slots.origin();
            quotient_bounds(offset, slots.slot());
            done = offset / slots.slot();
            boundaries_rise(slots, done, done);
            if done >= slots.count() {
                boundaries_rise(slots, slots.count() as int, done);
            }
        }
        assert forall|index: int|
            0 <= index < slots.count() && (index < done || last <= cursor)
                && #[trigger] slots.overlap(start as int, end as int, index) > 0 implies has_slot(
            slices@,
            index,
        ) by {
            boundaries_rise(slots, 0, index);
            boundaries_rise(slots, index, slots.count() as int);
            if index < done {
                boundaries_rise(slots, index, done);
            }
        }
    }
    while cursor < last
        invariant
            slots.wf(),
            last <= end,
            last <= slots.boundary(slots.count() as int),
            last == model::earlier(end as int, slots.boundary(slots.count() as int)),
            start <= cursor,
            slots.origin() <= cursor,
            cursor < last ==> 0 <= done < slots.count() && slots.boundary(done) <= cursor
                < slots.boundary(done + 1),
            cursor < last ==> cursor == model::later(start as int, slots.boundary(done)),
            forall|i: int, j: int|
                0 <= i < j < slices@.len() ==> (#[trigger] slices@[i]).index < (
                #[trigger] slices@[j]).index,
            forall|i: int|
                0 <= i < slices@.len() ==> (#[trigger] slices@[i]).index < slots.count()
                    && slices@[i].seconds == slots.overlap(
                    start as int,
                    end as int,
                    slices@[i].index as int,
                ) && slices@[i].seconds > 0,
            cursor < last ==> forall|i: int|
                0 <= i < slices@.len() ==> (#[trigger] slices@[i]).index < done,
            forall|index: int|
                0 <= index < slots.count() && (index < done || last <= cursor)
                    && #[trigger] slots.overlap(start as int, end as int, index) > 0 ==> has_slot(
                    slices@,
                    index,
                ),
        decreases last - cursor,
    {
        let index: usize = slots.index_of(cursor).unwrap();
        proof {
            if index < done {
                boundaries_rise(slots, index as int, done);
            }
            if done < index {
                boundaries_rise(slots, done, index as int);
            }
            assert(index == done);
            boundaries_rise(slots, index as int, index as int);
            boundaries_rise(slots, index + 1, slots.count() as int);
        }
        let boundary: i64 = slots.start_of(index + 1);
        let slice_end: i64 = if last <= boundary {
            last
        } else {
            boundary
        };
        let slice: SlotSlice = SlotSlice { index, seconds: (slice_end - cursor) as u64 };
        let ghost before = slices@;
        slices.push(slice);
        proof {
            assert(slots.overlap(start as int, end as int, index as int) == slice_end - cursor);
            assert(slices@[before.len() as int].index == index);
            let earlier_done = done;
            if slice_end < last {
                done = done + 1;
                boundaries_rise(slots, done, slots.count() as int);
                boundaries_rise(slots, done, done);
                assert(slice_end == slots.boundary(done));
                if done == slots.count() {
                    assert(false);
                }
            }
            assert forall|k: int|
                0 <= k < slots.count() && (k < done || last <= slice_end)
                    && #[trigger] slots.overlap(start as int, end as int, k) > 0 implies has_slot(
                slices@,
                k,
            ) by {
                if k < earlier_done {
                    assert(has_slot(before, k));
                    let i = choose|i: int|
                        0 <= i < before.len() && (#[trigger] before[i]).index == k;
                    assert(slices@[i] == before[i]);
                } else if k > index {
                    boundaries_rise(slots, index + 1, k);
                }
            }
        }
        cursor = slice_end;
    }
    slices
}

/// The slot that starts at a slot's own start is that slot.
pub proof fn a_slot_start_lies_in_its_slot(slots: SlotGrid, index: int, found: int)
    requires
        slots.wf(),
        slots.boundary(found) <= slots.boundary(index) < slots.boundary(found + 1),
    ensures
        found == index,
{
    if found < index {
        boundaries_rise(slots, found, index);
    }
    if index < found {
        boundaries_rise(slots, index, found);
    }
}

/// Seconds of `[start, end)` that fall into each of the first `count` slots.
pub open spec fn overlaps(slots: SlotGrid, start: int, end: int, count: nat) -> Seq<nat> {
    Seq::new(count, |index: int| slots.overlap(start, end, index) as nat)
}

/// The pieces of an interval add up to the part of it that the slots cover: nothing is lost
/// at a boundary and nothing counted twice.
pub proof fn slices_sum_to_the_covered_part(slots: SlotGrid, start: int, end: int, count: nat)
    requires
        slots.slot() >= 1,
    ensures
        sums::sum(overlaps(slots, start, end, count)) == model::later(
            model::earlier(end, slots.boundary(count as int)) - model::later(
                start,
                slots.origin(),
            ),
            0,
        ),
    decreases count,
{
    assert(slots.boundary(0) == slots.origin()) by {
        assert(0 * slots.slot() == 0) by (nonlinear_arith);
    }
    if count > 0 {
        let fewer = (count - 1) as nat;
        slices_sum_to_the_covered_part(slots, start, end, fewer);
        assert(overlaps(slots, start, end, count).drop_last() =~= overlaps(
            slots,
            start,
            end,
            fewer,
        ));
        boundaries_rise(slots, 0, fewer as int);
        boundaries_rise(slots, fewer as int, fewer as int);
    }
}

// ---------------------------------------------------------------------------------------
// Observation time per slot
// ---------------------------------------------------------------------------------------

/// Samples per work unit: each unit allocates one partial [`Slots`], so a few tens of
/// thousands keeps both the allocation overhead and the idle time small.
pub const CHUNK_SIZE: usize = 32_768;

/// Observation time per slot, for one sensor.
///
/// Additive - the times sum element-wise - which is what lets disjoint chunks of samples be
/// folded independently and the results be merged.
#[derive(Debug)]
pub struct Slots {
    grid: SlotGrid,
    seconds: Vec<u64>,
}

/// Seconds one sample was readable for in a slot.
pub open spec fn readable<W>(sample: Sample<Option<W>>, slots: SlotGrid, index: int) -> int {
    if sample.watts is Some {
        slots.overlap(sample.start_ts as int, sample.end_ts as int, index)
    } else {
        0
    }
}

/// Seconds the samples were readable for in a slot, all together.
pub open spec fn total_readable<W>(
    samples: Seq<Sample<Option<W>>>,
    slots: SlotGrid,
    index: int,
) -> int
    decreases samples.len(),
{
    if samples.len() == 0 {
        0
    } else {
        total_readable(samples.drop_last(), slots, index) + readable(samples.last(), slots, index)
    }
}

impl Slots {
    /// The grid the times are laid out on.
    pub closed spec fn slots(&self) -> SlotGrid {
        self.grid
    }

    /// The seconds of every slot.
    pub closed spec fn view(&self) -> Seq<nat> {
        Seq::new(self.seconds@.len(), |i: int| self.seconds@[i] as nat)
    }

    /// There is a time for every slot, and all of them together fit.
    pub open spec fn wf(&self) -> bool {
        &&& self.slots().wf()
        &&& self@.len() == self.slots().count()
        &&& sums::sum(self@) <= u64::MAX
    }

    pub fn new(grid: SlotGrid) -> (slots: Self)
        requires
            grid.wf(),
        ensures
            slots.wf(),
            slots.slots() == grid,
            forall|i: int| 0 <= i < slots@.len() ==> slots@[i] == 0,
            sums::sum(slots@) == 0,
    {
        let mut seconds: Vec<u64> = Vec::new();
        let mut i: usize = 0;
        while i < grid.len()
            invariant
                i <= grid.count(),
                seconds@.len() == i,
                forall|j: int| 0 <= j < i ==> seconds@[j] == 0,
            decreases grid.count() - i,
        {
            seconds.push(0);
            i = i + 1;
        }
        let slots: Slots = Slots { grid, seconds };
        proof {
            sums::sum_of_zeros(slots@);
        }
        slots
    }

    pub fn grid(&self) -> (grid: SlotGrid)
        ensures
            grid == self.slots(),
    {
        self.grid
    }

    pub fn seconds(&self, index: usize) -> (seconds: u64)
        ensures
            seconds == grid::entry_or_zero(self@, index as int),
    {
        if index < self.seconds.len() {
            self.seconds[index]
        } else {
            0
        }
    }

    pub fn observed_seconds(&self) -> (seconds: u64)
        requires
            self.wf(),
        ensures
            seconds == sums::sum(self@),
    {
        let mut seconds: u64 = 0;
        let mut i: usize = 0;
        while i < self.seconds.len()
            invariant
                self.wf(),
                i <= self@.len(),
                seconds == sums::sum(self@.take(i as int)),
            decreases self@.len() - i,
        {
            proof {
                sums::sum_bounds(self@, i as int);
                sums::sum_of_next(self@, i as int);
            }
            seconds = seconds + self.seconds[i];
            i = i + 1;
        }
        proof {
            assert(self@.take(i as int) =~= self@);
        }
        seconds
    }

    /// Add `seconds` of observation to one slot. Slots outside the grid are ignored.
    pub fn add(&mut self, index: usize, seconds: u64)
        requires
            old(self).wf(),
            sums::sum(old(self)@) + seconds <= u64::MAX,
        ensures
            final(self).wf(),
            final(self).slots() == old(self).slots(),
            final(self)@ == if index < old(self)@.len() {
                old(self)@.update(index as int, old(self)@[index as int] + seconds as nat)
            } else {
                old(self)@
            },
    {
        if index >= self.seconds.len() {
            return ;
        }
        let ghost before = self@;
        proof {
            sums::sum_bounds(before, index as int);
            sums::sum_of_update(before, index as int, seconds as nat);
        }
        let so_far: u64 = self.seconds[index];
        self.seconds[index] = so_far + seconds;
        proof {
            assert(self@ =~= before.update(index as int, before[index as int] + seconds as nat));
        }
    }

    /// Element-wise sum, used to merge the partial results of disjoint chunks.
    pub fn merge(self, other: Slots) -> (merged: Slots)
        requires
            self.wf(),
            other.wf(),
            self.slots() == other.slots(),
            sums::sum(self@) + sums::sum(other@) <= u64::MAX,
        ensures
            merged.wf(),
            merged.slots() == self.slots(),
            merged@ == sums::sums(self@, other@),
    {
        proof {
            sums::sum_of_sums(self@, other@);
        }
        let mut seconds: Vec<u64> = Vec::new();
        let mut i: usize = 0;
        while i < self.seconds.len()
            invariant
                self.wf(),
                other.wf(),
                self.slots() == other.slots(),
                sums::sum(self@) + sums::sum(other@) <= u64::MAX,
                i <= self@.len(),
                seconds@.len() == i,
                forall|j: int| 0 <= j < i ==> seconds@[j] == self@[j] + other@[j],
            decreases self@.len() - i,
        {
            proof {
                sums::sum_bounds(self@, i as int);
                sums::sum_bounds(other@, i as int);
            }
            seconds.push(self.seconds[i] + other.seconds[i]);
            i = i + 1;
        }
        let merged: Slots = Slots { grid: self.grid, seconds };
        proof {
            assert(merged@ =~= sums::sums(self@, other@));
        }
        merged
    }
}

/// The times with one sample's overlaps added.
spec fn with_overlaps(times: Seq<nat>, slots: SlotGrid, start: int, end: int) -> Seq<nat> {
    sums::sums(times, overlaps(slots, start, end, slots.count()))
}

/// Adding a sample's overlaps adds no more than its length.
proof fn overlaps_fit(times: Seq<nat>, slots: SlotGrid, start: int, end: int)
    requires
        slots.slot() >= 1,
        times.len() == slots.count(),
    ensures
        sums::sum(with_overlaps(times, slots, start, end)) <= sums::sum(times) + model::later(
            end - start,
            0,
        ),
{
    slices_sum_to_the_covered_part(slots, start, end, slots.count());
    sums::sum_of_sums(times, overlaps(slots, start, end, slots.count()));
}

fn accumulate_one<W>(slots: &mut Slots, sample: &Sample<Option<W>>)
    requires
        old(slots).wf(),
        sums::sum(old(slots)@) + sample.length() <= u64::MAX,
    ensures
        final(slots).wf(),
        final(slots).slots() == old(slots).slots(),
        forall|i: int|
            0 <= i < final(slots)@.len() ==> #[trigger] final(slots)@[i] == old(slots)@[i]
                + readable(*sample, old(slots).slots(), i),
        sums::sum(final(slots)@) <= sums::sum(old(slots)@) + sample.length(),
{
    if sample.watts.is_none() {
        return ;
    }
    let grid: SlotGrid = slots.grid();
    let slices: Vec<SlotSlice> = for_each_slot_slice(sample.start_ts, sample.end_ts, grid);
    let ghost before = slots@;
    let ghost (start, end) = (sample.start_ts as int, sample.end_ts as int);
    let ghost target = with_overlaps(before, grid, start, end);
    proof {
        overlaps_fit(before, grid, start, end);
    }
    let mut k: usize = 0;
    while k < slices.len()
        invariant
            slots.wf(),
            slots.slots() == grid,
            before.len() == grid.count(),
            slots@.len() == before.len(),
            k <= slices@.len(),
            are_slices_of(slices@, start, end, grid),
            target == with_overlaps(before, grid, start, end),
            sums::sum(target) <= u64::MAX,
            forall|i: int|
                0 <= i < slots@.len() ==> #[trigger] slots@[i] == before[i] + if has_slot(
                    slices@.take(k as int),
                    i,
                ) {
                    grid.overlap(start, end, i)
                } else {
                    0
                },
        decreases slices@.len() - k,
    {
        let slice: SlotSlice = slices[k];
        let ghost now = slots@;
        let ghost next = now.update(
            slice.index as int,
            now[slice.index as int] + slice.seconds as nat,
        );
        proof {
            let seen = slices@.take(k as int);
            let more = slices@.take(k + 1);
            if has_slot(seen, slice.index as int) {
                let j = choose|j: int|
                    0 <= j < seen.len() && (#[trigger] seen[j]).index == slice.index;
                assert(slices@[j].index < slices@[k as int].index);
            }
            assert(more[k as int].index == slice.index);
            assert forall|i: int| 0 <= i < now.len() && i != slice.index implies has_slot(more, i)
                == has_slot(seen, i) by {
                if has_slot(seen, i) {
                    let j = choose|j: int| 0 <= j < seen.len() && (#[trigger] seen[j]).index == i;
                    assert(more[j].index == i);
                }
                if has_slot(more, i) {
                    let j = choose|j: int| 0 <= j < more.len() && (#[trigger] more[j]).index == i;
                    assert(j < k);
                    assert(seen[j].index == i);
                }
            }
            assert forall|i: int| 0 <= i < next.len() implies next[i] <= target[i] by {
                assert(now[i] == before[i] + if has_slot(seen, i) {
                    grid.overlap(start, end, i)
                } else {
                    0
                });
            }
            sums::sum_is_monotone(next, target);
            sums::sum_of_update(now, slice.index as int, slice.seconds as nat);
        }
        slots.add(slice.index, slice.seconds);
        proof {
            assert forall|i: int| 0 <= i < slots@.len() implies #[trigger] slots@[i] == before[i]
                + if has_slot(slices@.take(k + 1), i) {
                grid.overlap(start, end, i)
            } else {
                0
            } by {
                assert(now[i] == before[i] + if has_slot(slices@.take(k as int), i) {
                    grid.overlap(start, end, i)
                } else {
                    0
                });
            }
        }
        k = k + 1;
    }
    proof {
        assert(slices@.take(k as int) =~= slices@);
        assert(slots@ =~= target) by {
            assert forall|i: int| 0 <= i < slots@.len() implies slots@[i] == target[i] by {
                if grid.overlap(start, end, i) > 0 {
                    assert(has_slot(slices@, i));
                }
            }
        }
    }
}

/// Sequential equivalent of [`accumulate`], for tiny inputs.
pub fn accumulate_sequential<W>(samples: &[Sample<Option<W>>], grid: SlotGrid) -> (slots: Slots)
    requires
        grid.wf(),
        model::total_length(samples@) <= u64::MAX,
    ensures
        slots.wf(),
        slots.slots() == grid,
        forall|i: int|
            0 <= i < slots@.len() ==> #[trigger] slots@[i] == total_readable(samples@, grid, i),
        sums::sum(slots@) <= model::total_length(samples@),
{
    let mut slots: Slots = Slots::new(grid);
    let mut k: usize = 0;
    while k < samples.len()
        invariant
            slots.wf(),
            slots.slots() == grid,
            k <= samples@.len(),
            model::total_length(samples@) <= u64::MAX,
            forall|i: int|
                0 <= i < slots@.len() ==> #[trigger] slots@[i] == total_readable(
                    samples@.take(k as int),
                    grid,
                    i,
                ),
            sums::sum(slots@) <= model::total_length(samples@.take(k as int)),
        decreases samples@.len() - k,
    {
        proof {
            assert(samples@.take(k + 1).drop_last() =~= samples@.take(k as int));
            model::total_length_is_monotone(samples@, 0, k + 1);
            assert(samples@.subrange(0, k + 1) =~= samples@.take(k + 1));
        }
        accumulate_one(&mut slots, &samples[k]);
        k = k + 1;
    }
    proof {
        assert(samples@.take(k as int) =~= samples@);
    }
    slots
}

/// The observation time of a chunk and that of the rest add up.
pub proof fn observation_time_is_additive<W>(
    first: Seq<Sample<Option<W>>>,
    second: Seq<Sample<Option<W>>>,
    slots: SlotGrid,
    index: int,
)
    ensures
        total_readable(first + second, slots, index) == total_readable(first, slots, index)
            + total_readable(second, slots, index),
    decreases second.len(),
{
    if second.len() == 0 {
        assert(first + second =~= first);
    } else {
        observation_time_is_additive(first, second.drop_last(), slots, index);
        assert((first + second).drop_last() =~= first + second.drop_last());
    }
}

/// Observation time per slot, folded chunk by chunk and merged.
pub fn accumulate<W>(samples: &[Sample<Option<W>>], grid: SlotGrid) -> (slots: Slots)
    requires
        grid.wf(),
        model::total_length(samples@) <= u64::MAX,
    ensures
        slots.wf(),
        slots.slots() == grid,
        forall|i: int|
            0 <= i < slots@.len() ==> #[trigger] slots@[i] == total_readable(samples@, grid, i),
{
    let length: usize = samples.len();
    let mut slots: Slots = Slots::new(grid);
    let mut from: usize = 0;
    while from < length
        invariant
            from <= length,
            length == samples@.len(),
            grid.wf(),
            slots.wf(),
            slots.slots() == grid,
            model::total_length(samples@) <= u64::MAX,
            forall|i: int|
                0 <= i < slots@.len() ==> #[trigger] slots@[i] == total_readable(
                    samples@.take(from as int),
                    grid,
                    i,
                ),
            sums::sum(slots@) <= model::total_length(samples@.take(from as int)),
        decreases length - from,
    {
        let to: usize = if length - from < CHUNK_SIZE {
            length
        } else {
            from + CHUNK_SIZE
        };
        let chunk: &[Sample<Option<W>>] = slice_subrange(samples, from, to);
        proof {
            model::total_length_is_monotone(samples@, from as int, to as int);
            model::total_length_is_monotone(samples@, 0, to as int);
            assert(samples@.subrange(0, to as int) =~= samples@.take(to as int));
        }
        let part: Slots = accumulate_sequential(chunk, grid);
        let ghost before = slots@;
        proof {
            sums::sum_of_sums(before, part@);
        }
        slots = slots.merge(part);
        proof {
            assert(samples@.take(from as int) + chunk@ =~= samples@.take(to as int));
            assert forall|i: int| 0 <= i < slots@.len() implies #[trigger] slots@[i]
                == total_readable(samples@.take(to as int), grid, i) by {
                observation_time_is_additive(samples@.take(from as int), chunk@, grid, i);
            }
        }
        from = to;
    }
    proof {
        assert(samples@.take(from as int) =~= samples@);
    }
    slots
}

// ---------------------------------------------------------------------------------------
// The grid both sensors share
// ---------------------------------------------------------------------------------------

/// The span of two spans together.
pub open spec fn joint_span(
    left: Option<(int, int)>,
    right: Option<(int, int)>,
) -> Option<(int, int)> {
    match (left, right) {
        (None, _) => right,
        (_, None) => left,
        (Some((a, b)), Some((c, d))) => Some((model::earlier(a, c), model::later(b, d))),
    }
}

/// Whether a grid of such slots over a span can be laid out in machine numbers.
pub open spec fn can_cover(span: Option<(int, int)>, slot_seconds: int) -> bool {
    match span {
        None => true,
        Some((first, last)) => {
            let slot = model::later(slot_seconds, 1);
            &&& i64::MIN <= first - slot
            &&& last + slot <= i64::MAX
            &&& last - first + 2 * slot <= i64::MAX
            &&& slots_needed(first, last, slot) <= usize::MAX
        },
    }
}

/// The grid covering every sample of both sensors.
pub fn grid_for<V, W>(left: &[Sample<V>], right: &[Sample<W>], slot_seconds: i64) -> (grid: Option<
    SlotGrid,
>)
    requires
        can_cover(
            joint_span(model::span_of(left@), model::span_of(right@)),
            slot_seconds as int,
        ),
    ensures
        match joint_span(model::span_of(left@), model::span_of(right@)) {
            None => grid is None,
            Some((first, last)) => grid matches Some(grid) && grid.wf() && grid.slot()
                == model::later(slot_seconds as int, 1) && grid.origin() == aligned(
                first,
                grid.slot(),
            ) && grid.count() == slots_needed(first, last, grid.slot()),
        },
{
    let (first, last) = match (model::observed_span(left), model::observed_span(right)) {
        (None, None) => {
            return None;
        },
        (Some(span), None) => span,
        (None, Some(span)) => span,
        (Some((a, b)), Some((c, d))) => (
            if a <= c {
                a
            } else {
                c
            },
            if b >= d {
                b
            } else {
                d
            },
        ),
    };
    Some(SlotGrid::covering(first, last, slot_seconds))
}

/// The slots lie one after the other from the origin on, each as long as a slot.
pub proof fn slots_lie_end_to_end(slots: SlotGrid, index: int)
    ensures
        slots.boundary(0) == slots.origin(),
        slots.boundary(index + 1) - slots.boundary(index) == slots.slot(),
{
    let s = slots.slot();
    assert(0 * s == 0) by (nonlinear_arith);
    assert((index + 1) * s == index * s + s) by (nonlinear_arith);
}

/// An interval overlaps a slot for as long as both go on: from the later start to the earlier
/// end, and not at all where one ends before the other starts.
pub proof fn overlaps_are_what_both_have_in_common(
    slots: SlotGrid,
    start: int,
    end: int,
    index: int,
)
    requires
        slots.slot() >= 1,
    ensures
        ({
            let from = slots.origin() + index * slots.slot();
            let until = from + slots.slot();
            let common = slots.overlap(start, end, index);
            &&& end <= from || until <= start || end <= start ==> common == 0
            &&& from < end && start < until && start < end ==> {
                &&& 0 < common <= end - start
                &&& common <= slots.slot()
                &&& start <= from && until <= end ==> common == slots.slot()
                &&& from <= start && end <= until ==> common == end - start
                &&& from <= start && until <= end ==> common == until - start
                &&& start <= from && end <= until ==> common == end - from
            }
        }),
{
    slots_lie_end_to_end(slots, index);
}

/// A grid laid over a span starts at the last whole multiple of the slot that is not after
/// the span, reaches its end, and has no slot more than that takes.
pub proof fn grids_cover_their_span_tightly(slots: SlotGrid, first: int, last: int)
    requires
        slots.slot() >= 1,
        first <= last,
        slots.origin() == aligned(first, slots.slot()),
        slots.count() == slots_needed(first, last, slots.slot()),
    ensures
        slots.origin() % slots.slot() == 0,
        first - slots.slot() < slots.origin() <= first,
        slots.count() >= 1,
        slots.boundary(slots.count() as int) >= last,
        slots.count() > 1 ==> slots.boundary(slots.count() - 1) < last,
{
    let s = slots.slot();
    let span = last - slots.origin();
    floor_bounds(first, s);
    vstd::arithmetic::div_mod::lemma_mod_multiples_basic(first / s, s);
    quotient_bounds(span, s);
    ceiling_bounds(span, s);
    let n = slots.count() as int;
    if n > 1 {
        assert((n - 1) * s == n * s - s) by (nonlinear_arith);
        if span % s == 0 {
            assert(n == span / s);
        } else {
            assert(n - 1 == span / s);
        }
    }
}

/// A sample counts for a slot as long as it overlaps it, if it holds a reading at all, and
/// so does a list of samples for all of them together.
pub proof fn only_readable_time_counts<W>(
    samples: Seq<Sample<Option<W>>>,
    slots: SlotGrid,
    index: int,
)
    requires
        samples.len() > 0,
    ensures
        samples.last().watts is None ==> total_readable(samples, slots, index) == total_readable(
            samples.drop_last(),
            slots,
            index,
        ),
        samples.last().watts is Some ==> total_readable(samples, slots, index) == total_readable(
            samples.drop_last(),
            slots,
            index,
        ) + slots.overlap(
            samples.last().start_ts as int,
            samples.last().end_ts as int,
            index,
        ),
        total_readable(Seq::<Sample<Option<W>>>::empty(), slots, index) == 0,
{
}

/// The span of two sensors holds that of each, and reaches no further than they do.
pub proof fn the_joint_span_holds_both(left: Option<(int, int)>, right: Option<(int, int)>)
    ensures
        joint_span(left, right) is None <==> left is None && right is None,
        joint_span(left, right) matches Some((first, last)) ==> {
            &&& left matches Some((a, b)) ==> first <= a && b <= last
            &&& right matches Some((c, d)) ==> first <= c && d <= last
            &&& (left matches Some((a, b)) && first == a) || (right matches Some((c, d)) && first
                == c)
            &&& (left matches Some((a, b)) && last == b) || (right matches Some((c, d)) && last
                == d)
        },
{
}

/// A stretch of time leaves one slice on every slot that it has in common with it, for as
/// long as the two have in common, and none on any other.
pub proof fn every_slot_gets_its_slice(
    slices: Seq<SlotSlice>,
    start: int,
    end: int,
    slots: SlotGrid,
    index: int,
)
    requires
        are_slices_of(slices, start, end, slots),
        slots.slot() >= 1,
        0 <= index < slots.count(),
    ensures
        start < end && start < slots.boundary(index + 1) && slots.boundary(index) < end
            <==> exists|i: int| 0 <= i < slices.len() && (#[trigger] slices[i]).index == index,
        forall|i: int|
            0 <= i < slices.len() && (#[trigger] slices[i]).index == index ==> slices[i].seconds
                == slots.overlap(start, end, index),
        forall|i: int, j: int|
            0 <= i < j < slices.len() ==> (#[trigger] slices[i]).index < (
            #[trigger] slices[j]).index,
{
    boundaries_rise(slots, index, index + 1);
    if slots.overlap(start, end, index) > 0 {
        assert(has_slot(slices, index));
    }
}

} // verus!
