//! The worker's side of the scoreboard: what each lifecycle event does to the
//! slot this process owns, to the quota and to the hooks that are due.

use vstd::prelude::*;
use crate::quota::{lemma_ticked_times, ticked_times, Hook, QuotaState};
use crate::scoreboard::{
    Scoreboard, SharedSlot, SlotSnapshot, occupied, readings, SLOT_ACTIVE, SLOT_DRAINING, SLOT_IDLE,
};
use crate::seqs::{lemma_take_all, lemma_take_push, lemma_total_prefix, lemma_total_push, total};

verus! {

/// What a worker reports about itself.
#[derive(Clone, Copy, Debug, PartialEq, Eq, Structural)]
pub enum Event {
    /// A request is fully finished; true when it failed.
    Handled(bool),
    Recycled,
    Restart,
    Unhealthy,
    Healthy,
    Idle,
    Active,
    Draining,
}

/// The bookkeeping of one worker thread.
pub struct WorkerBoard {
    /// The slot this process owns; nothing is reported while there is none.
    pub slot: Option<SharedSlot>,
    /// Sticky: once the worker decided to exit, Idle shows as DRAINING, so that
    /// the master stops counting it as spare capacity.
    pub draining: bool,
    pub quota: QuotaState,
    /// Hooks that fired and were not announced yet, oldest first.
    pub due: Vec<Hook>,
}

/// The mathematical content of a `WorkerBoard`.
pub struct BoardView {
    pub slot: Option<SharedSlot>,
    pub draining: bool,
    pub quota: QuotaState,
    pub due: Seq<Hook>,
}

impl View for WorkerBoard {
    type V = BoardView;

    open spec fn view(&self) -> BoardView {
        BoardView {
            slot: self.slot,
            draining: self.draining,
            quota: self.quota,
            due: self.due@,
        }
    }
}

/// A counter after `fetch_add(1)`: it wraps.
pub open spec fn bumped(n: u64) -> u64 {
    if n == u64::MAX {
        0
    } else {
        (n + 1) as u64
    }
}

/// The board once the worker decided to exit: the flag sticks, and a slot that
/// is parked idle flips at once.
pub open spec fn drained(b: BoardView) -> BoardView {
    match b.slot {
        None => b,
        Some(s) => BoardView {
            draining: true,
            slot: Some(
                SharedSlot {
                    state: if s.state == SLOT_IDLE {
                        SLOT_DRAINING
                    } else {
                        s.state
                    },
                    ..s
                },
            ),
            ..b
        },
    }
}

/// The board after a hook fired: drained, with the announcement due.
pub open spec fn announced(b: BoardView, fires: bool, hook: Hook) -> BoardView {
    if fires {
        BoardView { due: b.due.push(hook), ..drained(b) }
    } else {
        b
    }
}

/// What an event makes of a board. Without a slot nothing is recorded.
pub open spec fn recorded(b: BoardView, event: Event, now_ms: u64) -> BoardView {
    match b.slot {
        None => b,
        Some(s) => match event {
            Event::Handled(errored) => announced(
                BoardView {
                    slot: Some(
                        SharedSlot {
                            handled: bumped(s.handled),
                            errors: if errored {
                                bumped(s.errors)
                            } else {
                                s.errors
                            },
                            ..s
                        },
                    ),
                    quota: b.quota.ticked(),
                    ..b
                },
                b.quota.reaches(),
                Hook::Quota,
            ),
            Event::Recycled => BoardView {
                slot: Some(SharedSlot { recycles: bumped(s.recycles), ..s }),
                ..b
            },
            Event::Restart => BoardView {
                slot: Some(SharedSlot { restarts: bumped(s.restarts), ..s }),
                ..b
            },
            Event::Unhealthy => announced(
                BoardView {
                    slot: Some(SharedSlot { unhealthy: 1, ..s }),
                    quota: QuotaState { on_unhealthy: false, ..b.quota },
                    ..b
                },
                b.quota.on_unhealthy,
                Hook::Unhealthy,
            ),
            Event::Healthy => BoardView { slot: Some(SharedSlot { unhealthy: 0, ..s }), ..b },
            Event::Idle => BoardView {
                slot: Some(
                    SharedSlot {
                        state: if b.draining {
                            SLOT_DRAINING
                        } else {
                            SLOT_IDLE
                        },
                        last_activity_ms: now_ms,
                        ..s
                    },
                ),
                ..b
            },
            Event::Active => BoardView {
                slot: Some(SharedSlot { state: SLOT_ACTIVE, last_activity_ms: now_ms, ..s }),
                ..b
            },
            Event::Draining => drained(b),
        },
    }
}

/// The slot to report into from now on.
pub fn sb_set(board: &mut WorkerBoard, slot: SharedSlot)
    ensures
        final(board)@ == (BoardView { slot: Some(slot), ..old(board)@ }),
{
    board.slot = Some(slot);
}

/// The worker decided to exit.
fn drain(board: &mut WorkerBoard)
    ensures
        final(board)@ == drained(old(board)@),
{
    match board.slot {
        None => {},
        Some(s) => {
            let mut slot: SharedSlot = s;
            board.draining = true;
            if slot.state == SLOT_IDLE {
                slot.state = SLOT_DRAINING;
            }
            board.slot = Some(slot);
        },
    }
}

/// Records one event. `now_ms` is the monotonic clock in milliseconds; only the
/// Idle and Active events use it.
pub fn sb_update(board: &mut WorkerBoard, event: Event, now_ms: u64)
    ensures
        final(board)@ == recorded(old(board)@, event, now_ms),
{
    let mut s: SharedSlot = match board.slot {
        None => {
            return ;
        },
        Some(s) => s,
    };
    match event {
        Event::Handled(errored) => {
            s.handled = s.handled.wrapping_add(1);
            if errored {
                s.errors = s.errors.wrapping_add(1);
            }
            board.slot = Some(s);
            // The quota counts fully finished requests: exactly this event.
            if board.quota.tick() {
                drain(board);
                board.due.push(Hook::Quota);
            }
        },
        Event::Recycled => {
            s.recycles = s.recycles.wrapping_add(1);
            board.slot = Some(s);
        },
        Event::Restart => {
            s.restarts = s.restarts.wrapping_add(1);
            board.slot = Some(s);
        },
        Event::Unhealthy => {
            s.unhealthy = 1;
            board.slot = Some(s);
            if board.quota.fire_unhealthy() {
                drain(board);
                board.due.push(Hook::Unhealthy);
            }
        },
        Event::Healthy => {
            s.unhealthy = 0;
            board.slot = Some(s);
        },
        Event::Idle => {
            s.state = if board.draining {
                SLOT_DRAINING
            } else {
                SLOT_IDLE
            };
            s.last_activity_ms = now_ms;
            board.slot = Some(s);
        },
        Event::Active => {
            s.state = SLOT_ACTIVE;
            s.last_activity_ms = now_ms;
            board.slot = Some(s);
        },
        Event::Draining => drain(board),
    }
}

/// The announcements that are due, each handed out once.
pub fn take_due(board: &mut WorkerBoard) -> (due: Vec<Hook>)
    ensures
        due@ == old(board)@.due,
        final(board)@ == (BoardView { due: Seq::empty(), ..old(board)@ }),
{
    let mut due: Vec<Hook> = Vec::new();
    due.append(&mut board.due);
    assert(due@ =~= old(board)@.due);
    assert(board.due@ =~= Seq::<Hook>::empty());
    due
}

/// One worker's counters.
#[derive(Clone, Copy, Debug, PartialEq, Eq, Structural)]
pub struct WorkerStatSnapshot {
    pub id: usize,
    pub handled: u64,
    pub errors: u64,
    pub recycles: u64,
    pub restarts: u64,
    pub unhealthy: bool,
}

/// The counters of the whole pool.
#[derive(Debug)]
pub struct ScoreboardSnapshot {
    pub handled: u64,
    pub errors: u64,
    pub recycles: u64,
    pub restarts: u64,
    /// Workers currently flagged unhealthy.
    pub unhealthy: usize,
    pub workers: Vec<WorkerStatSnapshot>,
}

/// The counters of one reading.
pub open spec fn counters(s: SlotSnapshot) -> WorkerStatSnapshot {
    WorkerStatSnapshot {
        id: s.id,
        handled: s.handled,
        errors: s.errors,
        recycles: s.recycles,
        restarts: s.restarts,
        unhealthy: s.unhealthy,
    }
}

/// The counters of the occupied slots of a board.
pub open spec fn pool_counters(slots: Seq<SharedSlot>) -> Seq<WorkerStatSnapshot> {
    readings(slots).filter(|s: SlotSnapshot| occupied(s)).map_values(
        |s: SlotSnapshot| counters(s),
    )
}

pub open spec fn handled_of() -> spec_fn(WorkerStatSnapshot) -> nat {
    |w: WorkerStatSnapshot| w.handled as nat
}

pub open spec fn errors_of() -> spec_fn(WorkerStatSnapshot) -> nat {
    |w: WorkerStatSnapshot| w.errors as nat
}

pub open spec fn recycles_of() -> spec_fn(WorkerStatSnapshot) -> nat {
    |w: WorkerStatSnapshot| w.recycles as nat
}

pub open spec fn restarts_of() -> spec_fn(WorkerStatSnapshot) -> nat {
    |w: WorkerStatSnapshot| w.restarts as nat
}

pub open spec fn unhealthy_of() -> spec_fn(WorkerStatSnapshot) -> nat {
    |w: WorkerStatSnapshot|
        if w.unhealthy {
            1
        } else {
            0
        }
}

/// The pool's totals fit their counters.
pub open spec fn totals_fit(workers: Seq<WorkerStatSnapshot>) -> bool {
    &&& total(workers, handled_of()) <= u64::MAX
    &&& total(workers, errors_of()) <= u64::MAX
    &&& total(workers, recycles_of()) <= u64::MAX
    &&& total(workers, restarts_of()) <= u64::MAX
}

/// A snapshot holds these counters and their totals.
pub open spec fn sums_up(r: ScoreboardSnapshot, workers: Seq<WorkerStatSnapshot>) -> bool {
    &&& r.workers@ == workers
    &&& r.handled == total(workers, handled_of())
    &&& r.errors == total(workers, errors_of())
    &&& r.recycles == total(workers, recycles_of())
    &&& r.restarts == total(workers, restarts_of())
    &&& r.unhealthy == total(workers, unhealthy_of())
}

/// The counters of the occupied slots, and their totals.
pub fn snapshot(board: &Scoreboard) -> (r: ScoreboardSnapshot)
    requires
        totals_fit(pool_counters(board.slots@)),
    ensures
        sums_up(r, pool_counters(board.slots@)),
{
    let slots = board.snapshot_slots();
    let ghost all = pool_counters(board.slots@);
    let mut workers: Vec<WorkerStatSnapshot> = Vec::new();
    let mut handled: u64 = 0;
    let mut errors: u64 = 0;
    let mut recycles: u64 = 0;
    let mut restarts: u64 = 0;
    let mut unhealthy: usize = 0;
    assert(workers@ =~= all.take(0));
    for i in 0..slots.len()
        invariant
            all == slots@.map_values(|s: SlotSnapshot| counters(s)),
            totals_fit(all),
            workers@ == all.take(i as int),
            handled == total(workers@, handled_of()),
            errors == total(workers@, errors_of()),
            recycles == total(workers@, recycles_of()),
            restarts == total(workers@, restarts_of()),
            unhealthy == total(workers@, unhealthy_of()),
            unhealthy <= i,
    {
        let s: SlotSnapshot = slots[i];
        let w = WorkerStatSnapshot {
            id: s.id,
            handled: s.handled,
            errors: s.errors,
            recycles: s.recycles,
            restarts: s.restarts,
            unhealthy: s.unhealthy,
        };
        proof {
            lemma_take_push(all, i as int);
            lemma_total_push(workers@, w, handled_of());
            lemma_total_push(workers@, w, errors_of());
            lemma_total_push(workers@, w, recycles_of());
            lemma_total_push(workers@, w, restarts_of());
            lemma_total_push(workers@, w, unhealthy_of());
            lemma_total_prefix(all, i + 1, handled_of());
            lemma_total_prefix(all, i + 1, errors_of());
            lemma_total_prefix(all, i + 1, recycles_of());
            lemma_total_prefix(all, i + 1, restarts_of());
        }
        handled = handled + w.handled;
        errors = errors + w.errors;
        recycles = recycles + w.recycles;
        restarts = restarts + w.restarts;
        if w.unhealthy {
            unhealthy = unhealthy + 1;
        }
        workers.push(w);
    }
    proof {
        lemma_take_all(all);
    }
    ScoreboardSnapshot { handled, errors, recycles, restarts, unhealthy, workers }
}

/// A board after a run of events, each with the clock it came at.
pub open spec fn recorded_all(b: BoardView, events: Seq<(Event, u64)>) -> BoardView
    decreases events.len(),
{
    if events.len() == 0 {
        b
    } else {
        recorded(recorded_all(b, events.drop_last()), events.last().0, events.last().1)
    }
}

/// How many events of a run satisfy `p`.
pub open spec fn occurrences(events: Seq<(Event, u64)>, p: spec_fn(Event) -> bool) -> nat
    decreases events.len(),
{
    if events.len() == 0 {
        0
    } else {
        occurrences(events.drop_last(), p) + if p(events.last().0) {
            1nat
        } else {
            0nat
        }
    }
}

/// A counter that started at `n` and went up by `by`; it wraps.
pub open spec fn counted_up(n: u64, by: nat) -> int {
    (n + by) % 0x1_0000_0000_0000_0000
}

/// How often a hook is among those that are due.
pub open spec fn announcements(due: Seq<Hook>, hook: Hook) -> nat
    decreases due.len(),
{
    if due.len() == 0 {
        0
    } else {
        announcements(due.drop_last(), hook) + if due.last() == hook {
            1nat
        } else {
            0nat
        }
    }
}

/// One more announcement.
proof fn lemma_announcements_push(due: Seq<Hook>, h: Hook, hook: Hook)
    ensures
        announcements(due.push(h), hook) == announcements(due, hook) + if h == hook {
            1nat
        } else {
            0nat
        },
{
    assert(due.push(h).drop_last() =~= due);
}

/// The quota is announced exactly once, with the finished request that completes
/// it, whatever else happens in between; the worker drains from then on. Where
/// there is no quota, or it is not reached, it is not announced. Finished
/// requests never announce that the worker is unhealthy.
pub proof fn the_quota_is_announced_once(b: BoardView, events: Seq<(Event, u64)>)
    requires
        b.slot is Some,
        b.due.len() == 0,
        b.quota.served == 0,
        b.quota.on_quota,
    ensures
        ({
            let after = recorded_all(b, events);
            let finished = occurrences(events, |e: Event| e is Handled);
            let reached = b.quota.max != 0 && finished >= b.quota.max;
            &&& after.slot is Some
            &&& announcements(after.due, Hook::Quota) == (if reached {
                1nat
            } else {
                0nat
            })
            &&& reached ==> after.draining
            &&& occurrences(events, |e: Event| e == Event::Unhealthy) == 0 ==> announcements(
                after.due,
                Hook::Unhealthy,
            ) == 0
        }),
    decreases events.len(),
{
    lemma_quota_follows(b, events);
    if events.len() > 0 {
        the_quota_is_announced_once(b, events.drop_last());
        let before = recorded_all(b, events.drop_last());
        let (event, now_ms) = events.last();
        let finished = occurrences(events.drop_last(), |e: Event| e is Handled);
        lemma_quota_follows(b, events.drop_last());
        lemma_ticked_times(b.quota, finished);
        lemma_announcements_push(before.due, Hook::Quota, Hook::Quota);
        lemma_announcements_push(before.due, Hook::Quota, Hook::Unhealthy);
        lemma_announcements_push(before.due, Hook::Unhealthy, Hook::Quota);
        lemma_announcements_push(before.due, Hook::Unhealthy, Hook::Unhealthy);
        assert(recorded_all(b, events) == recorded(before, event, now_ms));
    }
}

/// A board's quota counts its finished requests and nothing else.
proof fn lemma_quota_follows(b: BoardView, events: Seq<(Event, u64)>)
    requires
        b.slot is Some,
    ensures
        ({
            let after = recorded_all(b, events);
            let n = occurrences(events, |e: Event| e is Handled);
            &&& after.slot is Some
            &&& after.quota.served == ticked_times(b.quota, n).served
            &&& after.quota.max == ticked_times(b.quota, n).max
            &&& after.quota.on_quota == ticked_times(b.quota, n).on_quota
        }),
    decreases events.len(),
{
    if events.len() > 0 {
        lemma_quota_follows(b, events.drop_last());
        let before = recorded_all(b, events.drop_last());
        let (event, now_ms) = events.last();
        assert(recorded_all(b, events) == recorded(before, event, now_ms));
    }
}

/// Once a worker decided to exit, no run of events brings its slot back to IDLE:
/// it never counts as spare capacity again.
pub proof fn draining_is_sticky(b: BoardView, events: Seq<(Event, u64)>)
    requires
        b.draining,
        b.slot matches Some(s) && s.state != SLOT_IDLE,
    ensures
        recorded_all(b, events).draining,
        recorded_all(b, events).slot matches Some(s) && s.state != SLOT_IDLE,
    decreases events.len(),
{
    if events.len() > 0 {
        draining_is_sticky(b, events.drop_last());
    }
}

/// The decision to exit shows at once, and from then on for good.
pub proof fn a_drain_lasts(b: BoardView, now_ms: u64, events: Seq<(Event, u64)>)
    requires
        b.slot is Some,
    ensures
        ({
            let after = recorded_all(recorded(b, Event::Draining, now_ms), events);
            &&& after.draining
            &&& after.slot matches Some(s) && s.state != SLOT_IDLE
        }),
{
    draining_is_sticky(recorded(b, Event::Draining, now_ms), events);
}

/// Over any run of events, every counter goes up by exactly the events it
/// counts: `handled` by the finished requests, `errors` by the failed ones among
/// them, `recycles` and `restarts` by their own. No event goes back on one.
pub proof fn every_event_is_counted_once(b: BoardView, events: Seq<(Event, u64)>)
    requires
        b.slot is Some,
    ensures
        recorded_all(b, events).slot matches Some(t) && {
            let s = b.slot->0;
            &&& t.handled == counted_up(
                s.handled,
                occurrences(events, |e: Event| e is Handled),
            )
            &&& t.errors == counted_up(
                s.errors,
                occurrences(events, |e: Event| e == Event::Handled(true)),
            )
            &&& t.recycles == counted_up(
                s.recycles,
                occurrences(events, |e: Event| e == Event::Recycled),
            )
            &&& t.restarts == counted_up(
                s.restarts,
                occurrences(events, |e: Event| e == Event::Restart),
            )
        },
    decreases events.len(),
{
    if events.len() > 0 {
        every_event_is_counted_once(b, events.drop_last());
        let before = recorded_all(b, events.drop_last());
        let (event, now_ms) = events.last();
        assert(recorded_all(b, events) == recorded(before, event, now_ms));
        match event {
            Event::Handled(errored) => {
                assert(errored || event != Event::Handled(true));
            },
            _ => {},
        }
    }
}

} // verus!
