//! The worker's current cycle: which unit is out with the script, and the
//! latches that decide how the cycle ends.

use vstd::prelude::*;
use crate::channel::PullRecord;
use crate::worker_board::{recorded, sb_update, BoardView, Event, WorkerBoard};

verus! {

/// The unit machine. A unit is known by its number.
#[derive(Clone, Copy, Debug, PartialEq, Eq, Structural)]
pub enum Unit {
    /// No live unit.
    Idle,
    /// An unfinalized unit is out with the script; receiving answers busy.
    Handling(u64),
    /// Sealed, but the script still holds the object.
    Sealed(u64),
}

/// Dispatcher state for the current cycle: the unit machine plus the sticky
/// latches that feed the exit decision. The record of probes is evidence, and
/// makes no two cycles differ.
#[derive(Clone, Copy, Debug, Eq)]
pub struct CycleState {
    pub unit: Unit,
    /// Receiving observed channel closure this cycle.
    pub closed_seen: bool,
    /// A unit was finalized this cycle.
    pub served: bool,
    /// A unit was handed out this cycle; a fatal after that is an application
    /// failure, not a boot failure.
    pub received: bool,
    /// What the channels of the jobs that were pulled this cycle said.
    pub probes: PullRecord,
}

impl PartialEq for CycleState {
    fn eq(&self, other: &CycleState) -> (r: bool) {
        self.unit == other.unit && self.closed_seen == other.closed_seen && self.served
            == other.served && self.received == other.received
    }
}

impl vstd::std_specs::cmp::PartialEqSpecImpl for CycleState {
    open spec fn obeys_eq_spec() -> bool {
        true
    }

    open spec fn eq_spec(&self, other: &CycleState) -> bool {
        self.unit == other.unit && self.closed_seen == other.closed_seen && self.served
            == other.served && self.received == other.received
    }
}

/// The cycle before anything happened.
pub open spec fn cycle_idle() -> CycleState {
    CycleState {
        unit: Unit::Idle,
        closed_seen: false,
        served: false,
        received: false,
        probes: PullRecord::blank(),
    }
}

/// What a worker thread keeps: its cycle and its side of the scoreboard.
pub struct Desk {
    pub cycle: CycleState,
    pub board: WorkerBoard,
}

/// The content of a `Desk`.
pub struct DeskView {
    pub cycle: CycleState,
    pub board: BoardView,
}

impl View for Desk {
    type V = DeskView;

    open spec fn view(&self) -> DeskView {
        DeskView { cycle: self.cycle, board: self.board@ }
    }
}

/// The unit machine once the unit in hand is concluded.
pub open spec fn sealed(u: Unit) -> Unit {
    match u {
        Unit::Handling(p) => Unit::Sealed(p),
        _ => u,
    }
}

/// A desk with one more unit counted as handled.
pub open spec fn counted(d: DeskView, errored: bool) -> DeskView {
    DeskView { board: recorded(d.board, Event::Handled(errored), 0), ..d }
}

/// A desk after a unit was concluded: by the worker (`served`) or by the host.
pub open spec fn concluded_desk(d: DeskView, errored: bool, served: bool) -> DeskView {
    counted(
        DeskView {
            cycle: CycleState {
                unit: sealed(d.cycle.unit),
                served: d.cycle.served || served,
                ..d.cycle
            },
            ..d
        },
        errored,
    )
}

/// Whether a number is the one the unit machine tracks.
pub open spec fn tracks(u: Unit, id: u64) -> bool {
    u == Unit::Handling(id) || u == Unit::Sealed(id)
}

impl CycleState {
    /// A cycle before anything happened.
    pub fn idle() -> (c: CycleState)
        ensures
            c == cycle_idle(),
    {
        CycleState {
            unit: Unit::Idle,
            closed_seen: false,
            served: false,
            received: false,
            probes: PullRecord::new(),
        }
    }

    /// Whether receiving observed channel closure this cycle.
    pub fn closed_seen(&self) -> (r: bool)
        ensures
            r == self.closed_seen,
    {
        self.closed_seen
    }

    /// Whether a unit was finalized this cycle.
    pub fn served_any(&self) -> (r: bool)
        ensures
            r == self.served,
    {
        self.served
    }

    /// Whether a unit was handed out this cycle.
    pub fn received_any(&self) -> (r: bool)
        ensures
            r == self.received,
    {
        self.received
    }

    /// Latches that the channel closed.
    pub fn note_closed(&mut self)
        ensures
            *final(self) == (CycleState { closed_seen: true, ..*old(self) }),
    {
        self.closed_seen = true;
    }

    /// Latches that a unit was handed out.
    pub fn note_received(&mut self)
        ensures
            *final(self) == (CycleState { received: true, ..*old(self) }),
    {
        self.received = true;
    }

    /// Latches that a unit was finalized.
    pub fn note_served(&mut self)
        ensures
            *final(self) == (CycleState { served: true, ..*old(self) }),
    {
        self.served = true;
    }

    /// Hands out unit `id`. A unit that was sealed before is no longer tracked.
    pub fn hand_out(&mut self, id: u64)
        ensures
            *final(self) == (CycleState { unit: Unit::Handling(id), received: true, ..*old(self) }),
    {
        self.unit = Unit::Handling(id);
        self.received = true;
    }

    /// Forgets unit `id` if it is the one tracked.
    pub fn untrack(&mut self, id: u64)
        ensures
            *final(self) == (CycleState {
                unit: if tracks(old(self).unit, id) {
                    Unit::Idle
                } else {
                    old(self).unit
                },
                ..*old(self)
            }),
    {
        let known = match self.unit {
            Unit::Idle => false,
            Unit::Handling(p) => p == id,
            Unit::Sealed(p) => p == id,
        };
        if known {
            self.unit = Unit::Idle;
        }
    }
}

/// Counts a unit that was concluded, by the worker (`served`) or by the host.
pub(crate) fn conclude(desk: &mut Desk, errored: bool, served: bool)
    ensures
        final(desk)@ == concluded_desk(old(desk)@, errored, served),
{
    match desk.cycle.unit {
        Unit::Handling(p) => {
            desk.cycle.unit = Unit::Sealed(p);
        },
        _ => {},
    }
    if served {
        desk.cycle.note_served();
    }
    sb_update(&mut desk.board, Event::Handled(errored), 0);
}

/// Reclaims the tracked unit, which its object never gave back (a bailed
/// shutdown or allocation). `finalized` says whether that unit had ended; an
/// unfinalized one is counted as failed. Returns the number of the unit to free.
pub fn reclaim_current(desk: &mut Desk, finalized: bool) -> (r: Option<u64>)
    ensures
        match old(desk)@.cycle.unit {
            Unit::Idle => r is None && final(desk)@ == old(desk)@,
            Unit::Handling(p) | Unit::Sealed(p) => {
                let freed = DeskView {
                    cycle: CycleState { unit: Unit::Idle, ..old(desk)@.cycle },
                    ..old(desk)@
                };
                &&& r == Some(p)
                &&& final(desk)@ == if finalized {
                    freed
                } else {
                    counted(freed, true)
                }
            },
        },
{
    let id: u64 = match desk.cycle.unit {
        Unit::Idle => {
            return None;
        },
        Unit::Handling(p) => p,
        Unit::Sealed(p) => p,
    };
    desk.cycle.unit = Unit::Idle;
    if !finalized {
        sb_update(&mut desk.board, Event::Handled(true), 0);
    }
    Some(id)
}

/// Starts a new cycle: the tracked unit is reclaimed and every latch cleared.
pub fn cycle_reset(desk: &mut Desk, finalized: bool) -> (r: Option<u64>)
    ensures
        final(desk)@.cycle == cycle_idle(),
        r is Some <==> !(old(desk)@.cycle.unit is Idle),
        r matches Some(id) ==> tracks(old(desk)@.cycle.unit, id),
        final(desk)@.board == if r is Some && !finalized {
            counted(old(desk)@, true).board
        } else {
            old(desk)@.board
        },
{
    let r = reclaim_current(desk, finalized);
    desk.cycle = CycleState::idle();
    r
}

} // verus!
