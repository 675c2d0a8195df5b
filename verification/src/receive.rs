//! Receiving work: which pull a receive verb makes, and what becomes of what
//! was pulled.

use vstd::prelude::*;
use crate::channel::{a_noted_probe_is_the_last, ProbeView};
use crate::context::{finished, Outgoing};
use crate::cycle::{counted, CycleState, Desk, DeskView, Unit};
use crate::exchange::{body_spools, ExchangeState, Job};
use crate::frames::{frames, FrameView};
use crate::respond::sound;
use crate::spool::{live_paths, paths, unlink_all};
use crate::text::{signed, signed_count};
use crate::types::Mode;
use crate::verbs::ThrowClass;
use crate::worker_board::{recorded, sb_update, Event, WorkerBoard};

verus! {

/// How a receive verb waits.
#[derive(Clone, Copy, Debug, PartialEq, Eq, Structural)]
pub enum RecvMode {
    /// Microseconds to wait; -1 is forever.
    Wait(i64),
    Try,
}

/// The pull that a receive verb makes.
#[derive(Clone, Copy, Debug, PartialEq, Eq, Structural)]
pub enum PullKind {
    /// Never blocks.
    Now,
    Forever,
    /// Blocks for at most so many microseconds.
    Micros(u64),
}

/// The argument gate of `receive()`: a timeout below -1 is refused.
pub fn receive_args(timeout_us: i64) -> (r: Option<RecvMode>)
    ensures
        r == (if timeout_us < -1 {
            None
        } else {
            Some(RecvMode::Wait(timeout_us))
        }),
{
    if timeout_us < -1 {
        None
    } else {
        Some(RecvMode::Wait(timeout_us))
    }
}

/// The pull that a receive verb makes.
pub fn pull_kind(mode: RecvMode) -> (r: PullKind)
    requires
        mode matches RecvMode::Wait(t) ==> t >= -1,
    ensures
        r == (match mode {
            RecvMode::Try => PullKind::Now,
            RecvMode::Wait(t) => if t == 0 {
                PullKind::Now
            } else if t == -1 {
                PullKind::Forever
            } else {
                PullKind::Micros(t as u64)
            },
        }),
{
    match mode {
        RecvMode::Try => PullKind::Now,
        RecvMode::Wait(t) => {
            if t == 0 {
                PullKind::Now
            } else if t == -1 {
                PullKind::Forever
            } else {
                PullKind::Micros(t as u64)
            }
        },
    }
}

/// Whether a unit is still out: receiving answers busy then, before any timer
/// is touched.
pub fn receive_busy(cycle: &CycleState) -> (r: bool)
    ensures
        r == (cycle.unit is Handling),
{
    match cycle.unit {
        Unit::Handling(_) => true,
        _ => false,
    }
}

/// What a receive verb throws before it pulls, if it is refused: a unit that is
/// still out is looked at first.
pub fn throw_busy(cycle: &CycleState) -> (r: Option<(ThrowClass, &'static str)>)
    ensures
        r is Some <==> cycle.unit is Handling,
        r matches Some(t) ==> t.0 == ThrowClass::Error && t.1@
            == "receive() while a Rapira\\Http\\Exchange is unfinalized; finalize it first"@,
{
    if receive_busy(cycle) {
        Some(
            (
                ThrowClass::Error,
                "receive() while a Rapira\\Http\\Exchange is unfinalized; finalize it first",
            ),
        )
    } else {
        None
    }
}

/// What `receive()` throws for its timeout, if it is refused.
pub fn throw_timeout_arg(timeout_us: i64) -> (r: Option<(ThrowClass, &'static str)>)
    ensures
        r is Some <==> timeout_us < -1,
        r matches Some(t) ==> t.0 == ThrowClass::ValueError && t.1@
            == "must be greater than or equal to -1"@,
{
    match receive_args(timeout_us) {
        Some(_) => None,
        None => Some((ThrowClass::ValueError, "must be greater than or equal to -1")),
    }
}

/// A pull begins: the worker is parked. A polling worker reports it too, so that
/// its activity stamp stays fresh.
pub fn begin_pull(board: &mut WorkerBoard, now_ms: u64)
    ensures
        final(board)@ == recorded(old(board)@, Event::Idle, now_ms),
{
    sb_update(board, Event::Idle, now_ms);
}

/// A pull ended; with a job the worker is active and one request fewer is
/// queued. Returns the new depth of the queue.
pub fn end_pull(board: &mut WorkerBoard, got_job: bool, pending: usize, now_ms: u64) -> (depth: usize)
    ensures
        got_job ==> final(board)@ == recorded(old(board)@, Event::Active, now_ms),
        !got_job ==> final(board)@ == old(board)@,
        depth == (if !got_job {
            pending as int
        } else if pending == 0 {
            usize::MAX as int
        } else {
            pending - 1
        }),
{
    if got_job {
        sb_update(board, Event::Active, now_ms);
        pending.wrapping_sub(1)
    } else {
        pending
    }
}

/// What a pull brought.
#[verifier::reject_recursive_types(F)]
pub enum Pulled<F> {
    Job(Job<F>),
    Timeout,
    Empty,
    Closed,
}

/// What a receive verb comes to.
#[verifier::reject_recursive_types(F)]
pub enum Received<F> {
    /// The unit to hand out.
    Unit(ExchangeState<F>),
    /// The unit was failed: send what is outgoing, remove the files, pull again.
    Failed { outgoing: Option<Outgoing<F>>, unlink: Vec<Vec<u8>> },
    /// No more work will ever arrive.
    Closed,
    /// Nothing queued; a `tryReceive()` answers null.
    Nothing,
    /// No work within the timeout.
    TimedOut,
}

/// What a receive verb throws into the script for what it came to.
pub open spec fn thrown_by_receive<F>(r: Received<F>) -> Option<(ThrowClass, Seq<char>)> {
    match r {
        Received::Closed => Some((ThrowClass::Closed, "no more work will ever arrive"@)),
        Received::TimedOut => Some(
            (ThrowClass::Timeout, "no work became available within the timeout"@),
        ),
        _ => None,
    }
}

/// What a receive verb throws into the script; a unit, and nothing for a
/// `tryReceive()`, throw nothing.
pub fn throw_receive<F>(received: &Received<F>) -> (r: Option<(ThrowClass, &'static str)>)
    ensures
        match thrown_by_receive(*received) {
            Some(t) => r matches Some(x) && x.0 == t.0 && x.1@ == t.1,
            None => r is None,
        },
{
    match received {
        Received::Closed => Some((ThrowClass::Closed, "no more work will ever arrive")),
        Received::TimedOut => Some(
            (ThrowClass::Timeout, "no work became available within the timeout"),
        ),
        _ => None,
    }
}

/// A desk with one more unit failed before it was handed out.
pub open spec fn failed_desk(d: DeskView) -> DeskView {
    counted(d, true)
}

/// A desk that hands out unit `id`.
pub open spec fn handing_out(d: DeskView, id: u64) -> DeskView {
    DeskView { cycle: CycleState { unit: Unit::Handling(id), received: true, ..d.cycle }, ..d }
}

/// A desk with what a job's channel said on record.
pub open spec fn noting(d: DeskView, said: ProbeView) -> DeskView {
    DeskView { cycle: CycleState { probes: d.cycle.probes.noted(said), ..d.cycle }, ..d }
}

/// What became of a job whose body could be read. Its channel was asked, and
/// what it said is on record: a client that vanished while the request was
/// queued fails the unit, and any other has it handed out.
pub open spec fn taken_on<F>(
    before: DeskView,
    after: DeskView,
    job: Job<F>,
    id: u64,
    r: Received<F>,
) -> bool {
    let said = after.cycle.probes.last();
    &&& said.asked == (job.ctx.sender is Some)
    &&& !said.asked ==> !said.closed
    &&& if said.closed {
        &&& after == failed_desk(noting(before, said))
        &&& r matches Received::Failed { outgoing, unlink } && outgoing is None && paths(unlink@)
            == live_paths(body_spools(job.ctx.req.body))
    } else {
        &&& after == handing_out(noting(before, said), id)
        &&& r matches Received::Unit(st) && st.opened_for(job.ctx.req, job.ctx.sender is Some)
            && st.resp.sender == job.ctx.sender && (job.ctx.sender is Some ==> sound(st.resp@))
    }
}

/// The frames of a job whose body could not be read: an end that says so.
pub open spec fn unreadable_frames<F>(job: Job<F>) -> Seq<FrameView<F>> {
    finished::<F>(job.ctx.req.method@, job.ctx.head, job.ctx.body@, true)
}

/// Takes on an opened unit, given what its channel said: a client that vanished
/// while the request was queued fails it instead.
pub fn take_on<F>(desk: &mut Desk, st: ExchangeState<F>, closed: bool, id: u64) -> (r: Received<F>)
    requires
        !(old(desk)@.cycle.unit is Handling),
    ensures
        st.resp@.open && closed ==> {
            &&& final(desk)@ == failed_desk(old(desk)@)
            &&& r matches Received::Failed { outgoing, unlink } && outgoing is None && paths(unlink@)
                == live_paths(st.resp@.spools)
        },
        !(st.resp@.open && closed) ==> {
            &&& final(desk)@ == handing_out(old(desk)@, id)
            &&& r == Received::Unit(st)
        },
{
    let mut st: ExchangeState<F> = st;
    if st.resp.sender.is_some() && closed {
        sb_update(&mut desk.board, Event::Handled(true), 0);
        let unlink = unlink_all(&mut st.resp.spools);
        return Received::Failed { outgoing: None, unlink };
    }
    desk.cycle.hand_out(id);
    Received::Unit(st)
}

/// What becomes of what a pull brought. `id` is the number of the unit, should
/// one be handed out. Nothing is pulled while a unit is still out
/// (`receive_busy`).
pub fn on_pulled<F>(desk: &mut Desk, pulled: Pulled<F>, mode: RecvMode, id: u64) -> (r: Received<F>)
    requires
        !(old(desk)@.cycle.unit is Handling),
    ensures
        match pulled {
            Pulled::Closed => r is Closed && final(desk)@ == (DeskView {
                cycle: CycleState { closed_seen: true, ..old(desk)@.cycle },
                ..old(desk)@
            }),
            Pulled::Timeout => r is TimedOut && final(desk)@ == old(desk)@,
            Pulled::Empty => {
                &&& final(desk)@ == old(desk)@
                &&& if mode == RecvMode::Try {
                    r is Nothing
                } else {
                    r is TimedOut
                }
            },
            Pulled::Job(job) => if job.ctx.req.body is Unreadable {
                &&& final(desk)@ == failed_desk(old(desk)@)
                &&& r matches Received::Failed { outgoing, unlink } && unlink@.len() == 0 && {
                    &&& outgoing is Some <==> job.ctx.sender is Some
                    &&& outgoing matches Some(o) ==> Some(o.sender) == job.ctx.sender && frames(
                        o.frames@,
                    ) == unreadable_frames(job)
                }
            } else {
                taken_on(old(desk)@, final(desk)@, job, id, r)
            },
        },
{
    match pulled {
        Pulled::Job(job) => {
            match ExchangeState::new(job) {
                Ok(st) => {
                    let closed = desk.cycle.probes.note(st.resp.asked());
                    take_on(desk, st, closed, id)
                },
                Err(mut job) => {
                    let outgoing = job.ctx.finish(true);
                    sb_update(&mut desk.board, Event::Handled(true), 0);
                    Received::Failed { outgoing, unlink: Vec::new() }
                },
            }
        },
        Pulled::Closed => {
            desk.cycle.note_closed();
            Received::Closed
        },
        Pulled::Timeout => Received::TimedOut,
        Pulled::Empty => {
            match mode {
                RecvMode::Try => Received::Nothing,
                RecvMode::Wait(_) => Received::TimedOut,
            }
        },
    }
}

/// A dispatcher's view of its queue: how many requests wait, and whether a unit
/// is out.
pub fn dispatcher_info(cycle: &CycleState, pending: usize) -> (r: (i64, i64))
    ensures
        r.0 == signed(pending as u64),
        r.1 == (if cycle.unit is Handling {
            1i64
        } else {
            0i64
        }),
{
    let active: i64 = if receive_busy(cycle) {
        1
    } else {
        0
    };
    (signed_count(pending as u64), active)
}

/// Whether a process has a dispatcher at all: only dispatcher mode has.
pub fn dispatches(mode: &Mode) -> (r: bool)
    ensures
        r == (*mode is Dispatcher),
{
    match mode {
        Mode::Dispatcher(_) => true,
        _ => false,
    }
}

/// What asking for the dispatcher throws: only a process that is fed work one
/// unit at a time has one.
pub fn throw_no_dispatcher(mode: &Mode) -> (r: Option<(ThrowClass, &'static str)>)
    ensures
        r is None <==> *mode is Dispatcher,
        r matches Some(t) ==> t.0 == ThrowClass::NotInWorkerMode && t.1@
            == "nothing dispatches work to this process outside dispatcher mode"@,
{
    if dispatches(mode) {
        None
    } else {
        Some(
            (
                ThrowClass::NotInWorkerMode,
                "nothing dispatches work to this process outside dispatcher mode",
            ),
        )
    }
}

/// A job is failed before it is handed out exactly when its channel, asked for
/// this job, said that the receiver is gone: a probe was recorded, it went to the
/// job's own channel where there is one, and what it said alone decides. A job
/// that is failed counts as one failed unit and leaves no unit out; a job that is
/// handed out counts nothing yet, and is the unit that is out.
pub proof fn a_job_is_failed_exactly_when_its_reader_is_gone<F>(
    before: DeskView,
    after: DeskView,
    job: Job<F>,
    id: u64,
    r: Received<F>,
)
    requires
        taken_on(before, after, job, id, r),
    ensures
        after.cycle.probes.number() != before.cycle.probes.number(),
        after.cycle.probes == before.cycle.probes.noted(after.cycle.probes.last()),
        after.cycle.probes.last().asked == (job.ctx.sender is Some),
        r is Failed || r is Unit,
        r is Failed <==> after.cycle.probes.last().asked && after.cycle.probes.last().closed,
        r is Failed ==> after.cycle.unit == before.cycle.unit && after.cycle.received
            == before.cycle.received && after.board == recorded(
            before.board,
            Event::Handled(true),
            0,
        ),
        r is Unit ==> after.cycle.unit == Unit::Handling(id) && after.cycle.received && after.board
            == before.board,
        after.cycle.closed_seen == before.cycle.closed_seen,
        after.cycle.served == before.cycle.served,
{
    a_noted_probe_is_the_last(before.cycle.probes, after.cycle.probes.last());
}

/// A receive that fails a unit leaves the cycle alone and counts one failed
/// unit; one that hands a unit out counts nothing yet, and the unit is then the
/// one that is out.
pub proof fn a_failed_unit_is_never_out(d: DeskView, id: u64)
    ensures
        failed_desk(d).cycle == d.cycle,
        handing_out(d, id).board == d.board,
        handing_out(d, id).cycle.unit == Unit::Handling(id),
        handing_out(d, id).cycle.received,
{
}

/// A job whose body could not be read is told so: what was recorded of its
/// response, and an end that says it was cut.
pub proof fn an_unreadable_job_ends_cut<F>(job: Job<F>)
    requires
        job.ctx.body@.len() <= u64::MAX,
    ensures
        ({
            let s = unreadable_frames(job);
            &&& s.len() > 0
            &&& s.last() matches FrameView::End { truncated, .. } && truncated
            &&& job.ctx.head is None ==> s.len() == 1
            &&& job.ctx.head matches Some(h) ==> s[0] is Head && s[0]->Head_status == h.status
                && s[0]->content_length is None
        }),
{
}

/// Only an intake that closed, and a wait that ran out, throw.
pub proof fn only_closing_and_waiting_throw<F>(r: Received<F>)
    ensures
        r is Closed ==> thrown_by_receive(r) == Some(
            (ThrowClass::Closed, "no more work will ever arrive"@),
        ),
        r is TimedOut ==> thrown_by_receive(r) == Some(
            (ThrowClass::Timeout, "no work became available within the timeout"@),
        ),
        r is Unit || r is Failed || r is Nothing ==> thrown_by_receive(r) is None,
{
}

} // verus!
