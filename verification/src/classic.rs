//! The classic worker: one script run per request.

use vstd::prelude::*;
use crate::context::{Context, Outgoing};
use crate::cycle::{counted, Desk};
use crate::diagnostics::{bits, shares, to_bits, E_FATAL_ERRORS};
use crate::frames::frames;
use crate::resident::{bare_head, closed_out};
use crate::types::StreamState;
use crate::worker_board::{recorded, sb_update, Event};

verus! {

/// Why a script could not be opened.
#[derive(Clone, Copy, Debug, PartialEq, Eq, Structural)]
pub enum OpenError {
    NotFound,
    PermissionDenied,
    Other,
}

/// The status that answers a script which could not be opened.
pub open spec fn open_error_status(kind: OpenError) -> u16 {
    match kind {
        OpenError::NotFound => 404,
        OpenError::PermissionDenied => 403,
        OpenError::Other => 500,
    }
}

/// The status that answers a script which could not be opened.
pub fn status_for_open_error(kind: OpenError) -> (r: u16)
    ensures
        r == open_error_status(kind),
{
    match kind {
        OpenError::NotFound => 404,
        OpenError::PermissionDenied => 403,
        OpenError::Other => 500,
    }
}

/// What the engine knows after a script ran.
#[derive(Clone, Copy, Debug, PartialEq, Eq, Structural)]
pub struct ScriptRun {
    /// The script ran to its end.
    pub completed: bool,
    /// A bailout left an unclean state.
    pub unclean: bool,
    /// The type of an error recorded during this request, if one was.
    pub last_error: Option<i32>,
}

/// Whether a script failed. One that left through `exit()` did not: only a
/// bailout or a recorded fatal error tells a failure apart from that.
pub open spec fn script_failed(run: ScriptRun) -> bool {
    !run.completed && (run.unclean || (run.last_error matches Some(t) && shares(
        bits(t),
        E_FATAL_ERRORS,
    )))
}

/// Whether a script failed.
pub fn run_failed(run: ScriptRun) -> (r: bool)
    ensures
        r == script_failed(run),
{
    let fatal = match run.last_error {
        Some(t) => to_bits(t) & E_FATAL_ERRORS != 0,
        None => false,
    };
    !run.completed && (run.unclean || fatal)
}

/// How far a classic request got.
#[derive(Clone, Copy, Debug, PartialEq, Eq, Structural)]
pub enum ClassicRun {
    /// The engine did not start the request.
    NotStarted,
    /// The script could not be opened.
    NotOpened(OpenError),
    Ran(ScriptRun),
}

/// Whether a classic request counts as failed.
pub open spec fn classic_failed(run: ClassicRun) -> bool {
    match run {
        ClassicRun::NotStarted => true,
        ClassicRun::NotOpened(_) => true,
        ClassicRun::Ran(s) => script_failed(s),
    }
}

/// The error head that is recorded before the engine's teardown, where the
/// script never ran.
pub fn early_error(run: ClassicRun) -> (r: Option<u16>)
    ensures
        r == (match run {
            ClassicRun::NotStarted => Some(500u16),
            ClassicRun::NotOpened(kind) => Some(open_error_status(kind)),
            ClassicRun::Ran(_) => None,
        }),
{
    match run {
        ClassicRun::NotStarted => Some(500),
        ClassicRun::NotOpened(kind) => Some(status_for_open_error(kind)),
        ClassicRun::Ran(_) => None,
    }
}

/// Concludes a classic request after the engine's teardown: the unit is
/// counted, and the response is sealed. A failure without a head becomes a 500;
/// the head that a script recorded is never replaced. A request that never
/// started is not cut.
pub fn classic_executor<F>(desk: &mut Desk, ctx: &mut Context<F>, run: ClassicRun) -> (r: Option<
    Outgoing<F>,
>)
    ensures
        final(desk)@ == counted(old(desk)@, classic_failed(run)),
        final(ctx).sender is None,
        r is Some <==> old(ctx).sender is Some,
        r matches Some(out) ==> closed_out::<F>(
            frames(out.frames@),
            old(ctx).req.method@,
            old(ctx).head,
            old(ctx).stream,
            old(ctx).body@,
            !(run is NotStarted) && classic_failed(run),
        ),
{
    let (errored, truncated): (bool, bool) = match run {
        ClassicRun::NotStarted => (true, false),
        ClassicRun::NotOpened(_) => {
            let t = ctx.finalize_response(true);
            (true, t)
        },
        ClassicRun::Ran(s) => {
            let failed = run_failed(s);
            let t = ctx.finalize_response(failed);
            (failed, t)
        },
    };
    assert(!(run is NotStarted) && classic_failed(run) && old(ctx).stream == StreamState::NotSent
        ==> bare_head(ctx.head, 500));
    sb_update(&mut desk.board, Event::Handled(errored), 0);
    ctx.finish(truncated)
}

} // verus!
