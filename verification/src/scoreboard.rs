//! The scoreboard: one slot per worker process. A worker writes its own slot;
//! the master reads all of them and writes only the STARTING (at fork) and FREE
//! (after reap) transitions.

use vstd::prelude::*;
use crate::seqs::{lemma_filter_push, lemma_take_all, lemma_take_push};

verus! {

/// The most slots a board can have.
pub const SB_MAX_SLOTS: usize = 4096;

/// No worker bound (the master clears after the reap).
pub const SLOT_FREE: u32 = 0;

/// The master forked; the worker has not reported in yet.
pub const SLOT_STARTING: u32 = 1;

/// Parked waiting for a job: spare capacity.
pub const SLOT_IDLE: u32 = 2;

/// Executing a request.
pub const SLOT_ACTIVE: u32 = 3;

/// A self-initiated exit is pending (quota or unhealthy).
pub const SLOT_DRAINING: u32 = 4;

/// One slot's values.
#[derive(Clone, Copy, Debug, PartialEq, Eq, Structural)]
pub struct SharedSlot {
    pub state: u32,
    pub pid: u32,
    pub handled: u64,
    pub errors: u64,
    pub recycles: u64,
    pub restarts: u64,
    pub unhealthy: u32,
    pub last_activity_ms: u64,
}

/// The slots of a pool, by slot number.
pub struct Scoreboard {
    pub slots: Vec<SharedSlot>,
}

/// The requested number of slots is zero or above `SB_MAX_SLOTS`.
#[derive(Clone, Copy, Debug, PartialEq, Eq, Structural)]
pub struct SlotsOutOfRange {
    pub nslots: usize,
}

/// What one occupied slot showed when it was read.
#[derive(Clone, Copy, Debug, PartialEq, Eq, Structural)]
pub struct SlotSnapshot {
    pub id: usize,
    pub pid: u32,
    pub state: u32,
    pub handled: u64,
    pub errors: u64,
    pub recycles: u64,
    pub restarts: u64,
    pub unhealthy: bool,
    pub last_activity_ms: u64,
}

/// A slot as the mapping comes up: every value zero.
pub open spec fn blank_slot() -> SharedSlot {
    SharedSlot {
        state: SLOT_FREE,
        pid: 0,
        handled: 0,
        errors: 0,
        recycles: 0,
        restarts: 0,
        unhealthy: 0,
        last_activity_ms: 0,
    }
}

/// The reading of slot number `id`.
pub open spec fn reading(id: int, s: SharedSlot) -> SlotSnapshot {
    SlotSnapshot {
        id: id as usize,
        pid: s.pid,
        state: s.state,
        handled: s.handled,
        errors: s.errors,
        recycles: s.recycles,
        restarts: s.restarts,
        unhealthy: s.unhealthy != 0,
        last_activity_ms: s.last_activity_ms,
    }
}

/// Whether a reading belongs to a slot that somebody holds.
pub open spec fn occupied(s: SlotSnapshot) -> bool {
    s.state != SLOT_FREE || s.pid != 0
}

/// The readings of all slots, in slot order.
pub open spec fn readings(slots: Seq<SharedSlot>) -> Seq<SlotSnapshot> {
    Seq::new(slots.len(), |i: int| reading(i, slots[i]))
}

impl Scoreboard {
    /// A board of `nslots` free slots.
    pub fn create(nslots: usize) -> (r: Result<Scoreboard, SlotsOutOfRange>)
        ensures
            r is Ok <==> 1 <= nslots <= SB_MAX_SLOTS,
            r matches Ok(b) ==> b.slots@ == Seq::new(nslots as nat, |i: int| blank_slot()),
            r matches Err(e) ==> e.nslots == nslots,
    {
        if nslots < 1 || nslots > SB_MAX_SLOTS {
            return Err(SlotsOutOfRange { nslots });
        }
        let mut slots: Vec<SharedSlot> = Vec::new();
        for i in 0..nslots
            invariant
                slots@ == Seq::new(i as nat, |k: int| blank_slot()),
        {
            slots.push(
                SharedSlot {
                    state: SLOT_FREE,
                    pid: 0,
                    handled: 0,
                    errors: 0,
                    recycles: 0,
                    restarts: 0,
                    unhealthy: 0,
                    last_activity_ms: 0,
                },
            );
            assert(slots@ =~= Seq::new((i + 1) as nat, |k: int| blank_slot()));
        }
        Ok(Scoreboard { slots })
    }

    /// How many slots the board has.
    pub fn nslots(&self) -> (n: usize)
        ensures
            n == self.slots@.len(),
    {
        self.slots.len()
    }

    /// The slot with the given number, if there is one.
    pub fn slot(&self, i: usize) -> (r: Option<&SharedSlot>)
        ensures
            i < self.slots@.len() ==> r == Some(&self.slots@[i as int]),
            i >= self.slots@.len() ==> r is None,
    {
        if i < self.slots.len() {
            Some(&self.slots[i])
        } else {
            None
        }
    }

    /// All slots, in slot order.
    pub fn slots(&self) -> (r: &[SharedSlot])
        ensures
            r@ == self.slots@,
    {
        self.slots.as_slice()
    }

    /// Master side, at fork time: reserves the slot, so that spare-capacity
    /// counts see the fork in flight. A number past the end changes nothing.
    pub fn set_starting(&mut self, i: usize, now_ms: u64)
        ensures
            i >= old(self).slots@.len() ==> final(self).slots@ == old(self).slots@,
            i < old(self).slots@.len() ==> final(self).slots@ == old(self).slots@.update(
                i as int,
                (SharedSlot {
                    state: SLOT_STARTING,
                    last_activity_ms: now_ms,
                    ..old(self).slots@[i as int]
                }),
            ),
    {
        if i < self.slots.len() {
            let mut s: SharedSlot = self.slots[i];
            s.state = SLOT_STARTING;
            s.last_activity_ms = now_ms;
            self.slots.set(i, s);
        }
    }

    /// Master side, after reaping the slot's worker; the slot may then go to a
    /// new fork. A number past the end changes nothing.
    pub fn clear(&mut self, i: usize)
        ensures
            i >= old(self).slots@.len() ==> final(self).slots@ == old(self).slots@,
            i < old(self).slots@.len() ==> final(self).slots@ == old(self).slots@.update(
                i as int,
                (SharedSlot { state: SLOT_FREE, pid: 0, ..old(self).slots@[i as int] }),
            ),
    {
        if i < self.slots.len() {
            let mut s: SharedSlot = self.slots[i];
            s.pid = 0;
            s.state = SLOT_FREE;
            self.slots.set(i, s);
        }
    }

    /// The readings of the occupied slots, in slot order.
    pub fn snapshot_slots(&self) -> (r: Vec<SlotSnapshot>)
        ensures
            r@ == readings(self.slots@).filter(|s: SlotSnapshot| occupied(s)),
    {
        let ghost pred = |s: SlotSnapshot| occupied(s);
        let mut out: Vec<SlotSnapshot> = Vec::new();
        proof {
            reveal(Seq::filter);
            assert(readings(self.slots@).take(0) =~= Seq::empty());
        }
        for id in 0..self.slots.len()
            invariant
                out@ == readings(self.slots@).take(id as int).filter(pred),
                pred == (|s: SlotSnapshot| occupied(s)),
        {
            let s: SharedSlot = self.slots[id];
            let snap = SlotSnapshot {
                id,
                pid: s.pid,
                state: s.state,
                handled: s.handled,
                errors: s.errors,
                recycles: s.recycles,
                restarts: s.restarts,
                unhealthy: s.unhealthy != 0,
                last_activity_ms: s.last_activity_ms,
            };
            proof {
                lemma_take_push(readings(self.slots@), id as int);
                lemma_filter_push(readings(self.slots@).take(id as int), snap, pred);
            }
            if s.state != SLOT_FREE || s.pid != 0 {
                out.push(snap);
            }
        }
        proof {
            lemma_take_all(readings(self.slots@));
        }
        out
    }
}

/// A slot right after `bind`.
pub open spec fn bound_slot(pid: u32, now_ms: u64) -> SharedSlot {
    SharedSlot {
        state: SLOT_IDLE,
        pid,
        handled: 0,
        errors: 0,
        recycles: 0,
        restarts: 0,
        unhealthy: 0,
        last_activity_ms: now_ms,
    }
}

impl SharedSlot {
    /// Claim and reset; once per worker process, before requests flow.
    pub fn bind(&mut self, pid: u32, now_ms: u64)
        ensures
            *final(self) == bound_slot(pid, now_ms),
    {
        self.handled = 0;
        self.errors = 0;
        self.recycles = 0;
        self.restarts = 0;
        self.unhealthy = 0;
        self.pid = pid;
        self.last_activity_ms = now_ms;
        self.state = SLOT_IDLE;
    }
}

/// A slot that was cleared no longer shows.
pub proof fn a_cleared_slot_is_not_shown(slots: Seq<SharedSlot>, i: int, k: int)
    requires
        0 <= i < slots.len() <= usize::MAX,
        slots[i].state == SLOT_FREE,
        slots[i].pid == 0,
        0 <= k < readings(slots).filter(|s: SlotSnapshot| occupied(s)).len(),
    ensures
        readings(slots).filter(|s: SlotSnapshot| occupied(s))[k].id != i,
{
    let pred = |s: SlotSnapshot| occupied(s);
    let all = readings(slots);
    let shown = all.filter(pred);
    all.lemma_filter_pred(pred, k);
    lemma_filter_from(all, pred, k);
    let j = choose|j: int| 0 <= j < all.len() && all[j] == shown[k];
    assert(all[j].id == j as usize);
}

/// A slot that somebody holds shows, with its counters.
pub proof fn a_held_slot_is_shown(slots: Seq<SharedSlot>, i: int)
    requires
        0 <= i < slots.len(),
        slots[i].state != SLOT_FREE || slots[i].pid != 0,
    ensures
        readings(slots).filter(|s: SlotSnapshot| occupied(s)).contains(reading(i, slots[i])),
{
    let pred = |s: SlotSnapshot| occupied(s);
    assert(readings(slots)[i] == reading(i, slots[i]));
    readings(slots).lemma_filter_contains(pred, i);
}

/// What a filter keeps was there before.
proof fn lemma_filter_from(s: Seq<SlotSnapshot>, pred: spec_fn(SlotSnapshot) -> bool, k: int)
    requires
        0 <= k < s.filter(pred).len(),
    ensures
        exists|j: int| 0 <= j < s.len() && s[j] == s.filter(pred)[k],
    decreases s.len(),
{
    reveal(Seq::filter);
    if s.len() > 0 {
        let p = s.drop_last();
        if k < p.filter(pred).len() {
            lemma_filter_from(p, pred, k);
            let j = choose|j: int| 0 <= j < p.len() && p[j] == p.filter(pred)[k];
            assert(s[j] == s.filter(pred)[k]);
        } else {
            assert(s[s.len() - 1] == s.filter(pred)[k]);
        }
    }
}

} // verus!
