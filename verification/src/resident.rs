//! The resident worker loop: how a cycle of the script ends, and what the
//! worker does about it.

use vstd::prelude::*;
use crate::context::{finished, Context, Outgoing};
use crate::cycle::{counted, CycleState, Desk, DeskView};
use crate::fields::{lines, Line};
use crate::frames::{frames, FrameView, ResponseHead};
use crate::types::{Mode, Outcome, StreamState};
use crate::verbs::ThrowClass;
use crate::worker_board::{recorded, sb_update, Event, WorkerBoard};

verus! {

/// How many boots may fail in a row before the worker is flagged unhealthy.
pub const UNHEALTHY_AFTER: u32 = 5;

/// How a cycle ended.
#[derive(Clone, Copy, Debug, PartialEq, Eq, Structural)]
pub enum Cycle {
    /// The intake closed: the only way a worker exits by itself.
    Stop,
    /// A unit bailed, or the script left after work: bootstrap again at once.
    Recycle,
    /// The bootstrap failed: shed one queued request, then retry.
    Failed,
    /// The engine's shutdown bailed: its thread state must be rebuilt.
    Restart,
}

/// Why the worker loop returned.
#[derive(Clone, Copy, Debug, PartialEq, Eq, Structural)]
pub enum WorkerExit {
    /// The intake closed: the thread ends.
    Closed,
    /// The thread state must be rebuilt.
    Restart,
}

/// How a cycle ended. Closure seen by the script wins over everything but a
/// bailed shutdown; a script that left after work was handed out is an
/// application failure, not a boot failure.
pub open spec fn cycle_end(c: CycleState, recycle: bool, shutdown_bailed: bool) -> Cycle {
    if shutdown_bailed {
        Cycle::Restart
    } else if c.closed_seen {
        Cycle::Stop
    } else if recycle || c.served || c.received {
        Cycle::Recycle
    } else {
        Cycle::Failed
    }
}

/// Classifies a cycle that ended; a restart is counted.
pub fn run_cycle(desk: &mut Desk, recycle: bool, shutdown_bailed: bool) -> (r: Cycle)
    ensures
        r == cycle_end(old(desk)@.cycle, recycle, shutdown_bailed),
        final(desk)@ == (if shutdown_bailed {
            DeskView { board: recorded(old(desk)@.board, Event::Restart, 0), ..old(desk)@ }
        } else {
            old(desk)@
        }),
{
    if shutdown_bailed {
        sb_update(&mut desk.board, Event::Restart, 0);
        return Cycle::Restart;
    }
    if desk.cycle.closed_seen() {
        Cycle::Stop
    } else if recycle || desk.cycle.served_any() || desk.cycle.received_any() {
        Cycle::Recycle
    } else {
        Cycle::Failed
    }
}

/// What the worker loop does after a cycle.
#[derive(Clone, Copy, Debug, PartialEq, Eq, Structural)]
pub enum WorkerStep {
    Exit(WorkerExit),
    /// Run the script again.
    Again,
    /// Wait for one queued request, shed it, then run the script again.
    Shed,
}

/// The boots that failed in a row.
#[derive(Clone, Copy, Debug, PartialEq, Eq, Structural)]
pub struct WorkerLoop {
    pub failures: u32,
}

/// A count of failures after one more, as far as the counter reaches.
pub open spec fn one_more(n: u32) -> u32 {
    if n == u32::MAX {
        n
    } else {
        (n + 1) as u32
    }
}

impl WorkerLoop {
    /// What the loop does after a cycle; the failure that reaches the limit
    /// flags the worker unhealthy.
    pub fn after_cycle(&mut self, board: &mut WorkerBoard, cycle: Cycle) -> (r: WorkerStep)
        ensures
            r == (match cycle {
                Cycle::Stop => WorkerStep::Exit(WorkerExit::Closed),
                Cycle::Restart => WorkerStep::Exit(WorkerExit::Restart),
                Cycle::Recycle => WorkerStep::Again,
                Cycle::Failed => WorkerStep::Shed,
            }),
            final(self).failures == (match cycle {
                Cycle::Recycle => 0,
                Cycle::Failed => one_more(old(self).failures),
                _ => old(self).failures,
            }),
            final(board)@ == (if cycle == Cycle::Failed && one_more(old(self).failures)
                == UNHEALTHY_AFTER {
                recorded(old(board)@, Event::Unhealthy, 0)
            } else {
                old(board)@
            }),
    {
        match cycle {
            Cycle::Stop => WorkerStep::Exit(WorkerExit::Closed),
            Cycle::Restart => WorkerStep::Exit(WorkerExit::Restart),
            Cycle::Recycle => {
                self.failures = 0;
                WorkerStep::Again
            },
            Cycle::Failed => {
                self.failures = self.failures.saturating_add(1);
                if self.failures == UNHEALTHY_AFTER {
                    sb_update(board, Event::Unhealthy, 0);
                }
                WorkerStep::Shed
            },
        }
    }

    /// What the loop does once it waited for a request to shed: without one the
    /// intake is closed.
    pub fn after_shed(&self, got_job: bool) -> (r: WorkerStep)
        ensures
            r == (if got_job {
                WorkerStep::Again
            } else {
                WorkerStep::Exit(WorkerExit::Closed)
            }),
    {
        if got_job {
            WorkerStep::Again
        } else {
            WorkerStep::Exit(WorkerExit::Closed)
        }
    }
}

/// A head without fields.
pub open spec fn bare_head(h: Option<ResponseHead>, status: u16) -> bool {
    h matches Some(h) && h.status == status && lines(h.headers@) == Seq::<Line>::empty()
}

/// The frames of a response that is closed after its script ran. A failure with
/// no head recorded becomes a 500, and one whose body was on its way is cut.
pub open spec fn closed_out<F>(
    s: Seq<FrameView<F>>,
    method: Seq<char>,
    head: Option<ResponseHead>,
    stream: StreamState,
    body: Seq<u8>,
    failed: bool,
) -> bool {
    let truncated = failed && stream == StreamState::BodyStreamed;
    if failed && stream == StreamState::NotSent {
        exists|h: Option<ResponseHead>|
            (#[trigger] bare_head(h, 500)) && s == finished::<F>(method, h, body, truncated)
    } else {
        s == finished::<F>(method, head, body, truncated)
    }
}

/// Sheds one request of a worker that cannot boot: a 503 unless a head was
/// recorded before, counted as failed.
pub fn shed<F>(desk: &mut Desk, ctx: &mut Context<F>) -> (r: Option<Outgoing<F>>)
    ensures
        final(desk)@ == counted(old(desk)@, true),
        final(ctx).sender is None,
        r is Some <==> old(ctx).sender is Some,
        r matches Some(out) ==> if old(ctx).stream == StreamState::NotSent {
            exists|h: Option<ResponseHead>|
                (#[trigger] bare_head(h, 503)) && frames(out.frames@) == finished::<F>(
                    old(ctx).req.method@,
                    h,
                    old(ctx).body@,
                    false,
                )
        } else {
            frames(out.frames@) == finished::<F>(
                old(ctx).req.method@,
                old(ctx).head,
                old(ctx).body@,
                false,
            )
        },
{
    ctx.send_error_head(503);
    assert(old(ctx).stream == StreamState::NotSent ==> bare_head(ctx.head, 503));
    let r = ctx.finish(false);
    sb_update(&mut desk.board, Event::Handled(true), 0);
    r
}

/// What the engine calls of one request came to.
#[derive(Clone, Copy, Debug, PartialEq, Eq, Structural)]
pub struct HandlerRun {
    /// The activation, or the handler where it activated.
    pub outcome: Outcome,
    /// Flushing the output of a handler that bailed or threw.
    pub flushed: Outcome,
    pub teardown: Outcome,
}

impl HandlerRun {
    /// Every contained bailout recycles: only a full shutdown may observe the
    /// state that it leaves behind.
    pub open spec fn recycles(self) -> bool {
        self.outcome == Outcome::Bailout || self.flushed == Outcome::Bailout || self.teardown
            == Outcome::Bailout
    }

    /// An uncaught throw is an error response, but needs no recycle.
    pub open spec fn failed(self) -> bool {
        self.recycles() || self.outcome == Outcome::Throw
    }
}

/// Whether the output must be flushed before the teardown destroys the head.
pub fn needs_flush(outcome: Outcome) -> (r: bool)
    ensures
        r == (outcome == Outcome::Bailout || outcome == Outcome::Throw),
{
    match outcome {
        Outcome::Bailout => true,
        Outcome::Throw => true,
        _ => false,
    }
}

/// Whether the first call of a cycle may serve: a bailed teardown recycles, and
/// any other marks the worker healthy.
pub fn first_call(board: &mut WorkerBoard, teardown: Outcome) -> (serve: bool)
    ensures
        serve == (teardown != Outcome::Bailout),
        final(board)@ == (if teardown == Outcome::Bailout {
            old(board)@
        } else {
            recorded(old(board)@, Event::Healthy, 0)
        }),
{
    if teardown == Outcome::Bailout {
        return false;
    }
    sb_update(board, Event::Healthy, 0);
    true
}

/// What a handled request leaves behind.
#[verifier::reject_recursive_types(F)]
pub struct Handled<F> {
    pub outgoing: Option<Outgoing<F>>,
    /// The script's loop must end, so that the cycle is rebuilt.
    pub recycle: bool,
}

/// A desk after a handled request.
pub open spec fn handled_desk(d: DeskView, run: HandlerRun) -> DeskView {
    let c = counted(
        DeskView { cycle: CycleState { served: true, ..d.cycle }, ..d },
        run.failed(),
    );
    if run.recycles() {
        DeskView { board: recorded(c.board, Event::Recycled, 0), ..c }
    } else {
        c
    }
}

/// Concludes a request that the resident loop handled: a failure without a head
/// becomes a 500, and a body that was already streaming is cut.
pub fn handle_request<F>(desk: &mut Desk, ctx: &mut Context<F>, run: HandlerRun) -> (r: Handled<F>)
    ensures
        r.recycle == run.recycles(),
        final(desk)@ == handled_desk(old(desk)@, run),
        final(ctx).sender is None,
        r.outgoing is Some <==> old(ctx).sender is Some,
        r.outgoing matches Some(out) ==> closed_out::<F>(
            frames(out.frames@),
            old(ctx).req.method@,
            old(ctx).head,
            old(ctx).stream,
            old(ctx).body@,
            run.failed(),
        ),
{
    let recycle = run.outcome == Outcome::Bailout || run.flushed == Outcome::Bailout || run.teardown
        == Outcome::Bailout;
    let errored = recycle || run.outcome == Outcome::Throw;
    let truncated = ctx.finalize_response(errored);
    assert(errored && old(ctx).stream == StreamState::NotSent ==> bare_head(ctx.head, 500));
    desk.cycle.note_served();
    sb_update(&mut desk.board, Event::Handled(errored), 0);
    if recycle {
        sb_update(&mut desk.board, Event::Recycled, 0);
    }
    let outgoing = ctx.finish(truncated);
    Handled { outgoing, recycle }
}

/// A worker that served or was handed anything never counts as a failed boot,
/// so application failures alone never flag it unhealthy.
pub proof fn work_is_never_a_failed_boot(c: CycleState, recycle: bool, bailed: bool)
    requires
        c.served || c.received,
    ensures
        cycle_end(c, recycle, bailed) != Cycle::Failed,
{
}

/// Why `handle_request()` is refused.
#[derive(Clone, Copy, Debug, PartialEq, Eq, Structural)]
pub enum GateFault {
    /// Nothing feeds this process requests: it is not in worker mode.
    NotInWorkerMode,
    /// Called from inside its own handler.
    Nested,
}

/// The gates of `handle_request()`, before the intake is touched.
pub fn handle_request_gate(mode: &Mode, inside: bool) -> (r: Option<GateFault>)
    ensures
        r == (if !(*mode is Worker) {
            Some(GateFault::NotInWorkerMode)
        } else if inside {
            Some(GateFault::Nested)
        } else {
            None
        }),
{
    match mode {
        Mode::Worker(_) => {
            if inside {
                Some(GateFault::Nested)
            } else {
                None
            }
        },
        _ => Some(GateFault::NotInWorkerMode),
    }
}

/// What a refused `handle_request()` throws into the script.
pub open spec fn thrown_by_gate(f: GateFault) -> (ThrowClass, Seq<char>) {
    match f {
        GateFault::NotInWorkerMode => (
            ThrowClass::NotInWorkerMode,
            "nothing feeds requests outside worker mode"@,
        ),
        GateFault::Nested => (
            ThrowClass::Error,
            "handle_request() may not be called from inside its handler"@,
        ),
    }
}

/// What a refused `handle_request()` throws into the script.
pub fn throw_gate(f: GateFault) -> (r: (ThrowClass, &'static str))
    ensures
        r.0 == thrown_by_gate(f).0,
        r.1@ == thrown_by_gate(f).1,
{
    match f {
        GateFault::NotInWorkerMode => (
            ThrowClass::NotInWorkerMode,
            "nothing feeds requests outside worker mode",
        ),
        GateFault::Nested => (
            ThrowClass::Error,
            "handle_request() may not be called from inside its handler",
        ),
    }
}

/// Whether a queued request is still worth handling, given what its channel
/// said; a client that vanished while it was queued is counted as failed, and
/// one that is there counts as handed out.
pub fn worth_handling(desk: &mut Desk, closed: bool) -> (r: bool)
    ensures
        r == !closed,
        closed ==> final(desk)@ == counted(old(desk)@, true),
        !closed ==> final(desk)@ == (DeskView {
            cycle: CycleState { received: true, ..old(desk)@.cycle },
            ..old(desk)@
        }),
{
    if closed {
        sb_update(&mut desk.board, Event::Handled(true), 0);
        false
    } else {
        desk.cycle.note_received();
        true
    }
}

/// Whether the worker thread goes on after its loop returned: only a restart
/// runs the loop again.
pub fn worker_main_loops(exit: WorkerExit) -> (r: bool)
    ensures
        r == (exit == WorkerExit::Restart),
{
    match exit {
        WorkerExit::Restart => true,
        WorkerExit::Closed => false,
    }
}

} // verus!
