//! The worker process: how it starts, how it counts toward its recycle, and
//! which code it exits with.

use vstd::prelude::*;
use crate::fields::copy_text;
use crate::quota::{install, QuotaState, WorkerHooks};
use crate::scoreboard::{
    blank_slot, bound_slot, Scoreboard, SharedSlot, SLOT_ACTIVE, SLOT_DRAINING, SLOT_IDLE,
    SLOT_STARTING, SB_MAX_SLOTS,
};
use crate::text::{chars_of, parse_chars, parsed_number, trimmed};
use crate::types::Mode;
use crate::worker_board::{
    pool_counters, sb_set, snapshot, sums_up, totals_fit, BoardView, ScoreboardSnapshot,
    WorkerBoard,
};

verus! {

/// What a worker asked to exit for.
#[derive(Clone, Copy, Debug, PartialEq, Eq, Structural)]
pub enum ExitRequest {
    /// The quota is reached.
    Recycle,
    /// The worker cannot boot.
    Unhealthy,
}

/// How a worker process ends.
#[derive(Clone, Copy, Debug, PartialEq, Eq, Structural)]
pub enum ExitCode {
    Drained,
    Crashed,
    Recycle,
    Unhealthy,
}

/// The exit a worker decided on, if it did.
#[derive(Clone, Copy, Debug, PartialEq, Eq, Structural)]
pub struct ExitState {
    pub decided: Option<ExitRequest>,
}

/// The decision after a request: the first one stands, but unhealthy upgrades a
/// pending recycle.
pub open spec fn decide(decided: Option<ExitRequest>, request: ExitRequest) -> Option<
    ExitRequest,
> {
    match decided {
        None => Some(request),
        Some(ExitRequest::Recycle) => Some(request),
        Some(ExitRequest::Unhealthy) => Some(ExitRequest::Unhealthy),
    }
}

impl ExitState {
    /// Requests an exit. True when it decided something new, and the host is to
    /// be stopped.
    pub fn request_worker_exit(&mut self, request: ExitRequest) -> (stop: bool)
        ensures
            final(self).decided == decide(old(self).decided, request),
            stop == (old(self).decided != decide(old(self).decided, request)),
    {
        match self.decided {
            None => {
                self.decided = Some(request);
                true
            },
            Some(ExitRequest::Recycle) => {
                if request == ExitRequest::Unhealthy {
                    self.decided = Some(ExitRequest::Unhealthy);
                    true
                } else {
                    false
                }
            },
            Some(ExitRequest::Unhealthy) => false,
        }
    }

    /// The code of a worker that drained: a decided exit carries supervision
    /// meaning that an error must not erase; only an error without one is a
    /// crash.
    pub fn exit_code(&self, any_failed: bool) -> (r: ExitCode)
        ensures
            r == (match self.decided {
                Some(ExitRequest::Recycle) => ExitCode::Recycle,
                Some(ExitRequest::Unhealthy) => ExitCode::Unhealthy,
                None => if any_failed {
                    ExitCode::Crashed
                } else {
                    ExitCode::Drained
                },
            }),
    {
        match self.decided {
            Some(ExitRequest::Recycle) => ExitCode::Recycle,
            Some(ExitRequest::Unhealthy) => ExitCode::Unhealthy,
            None => {
                if any_failed {
                    ExitCode::Crashed
                } else {
                    ExitCode::Drained
                }
            },
        }
    }
}

/// The last word on an exit does not depend on the order of the requests.
pub proof fn exit_requests_commute(d: Option<ExitRequest>, a: ExitRequest, b: ExitRequest)
    ensures
        decide(decide(d, a), b) == decide(decide(d, b), a),
{
}

/// How far a quota may be jittered: half of it, at least one.
pub open spec fn grace(max_requests: u64) -> u64 {
    if max_requests / 2 > 1 {
        max_requests / 2
    } else {
        1
    }
}

/// The quota of one worker: the configured one plus one to `grace`, as far as
/// the counter reaches. Zero is unlimited.
pub open spec fn jittered(max_requests: u64, entropy: u64) -> u64 {
    let quota = max_requests + 1 + entropy % grace(max_requests);
    if max_requests == 0 {
        0
    } else if quota <= u64::MAX {
        quota as u64
    } else {
        u64::MAX
    }
}

/// The quota of one worker: the configured one plus up to half of it again, so
/// that a pool never recycles in lockstep; `entropy` is any random number.
pub fn effective_quota(max_requests: u64, entropy: u64) -> (r: u64)
    ensures
        r == jittered(max_requests, entropy),
{
    if max_requests == 0 {
        return 0;
    }
    let half: u64 = max_requests / 2;
    let span: u64 = if half > 1 {
        half
    } else {
        1
    };
    let jitter: u64 = 1 + entropy % span;
    max_requests.saturating_add(jitter)
}

/// Whatever the random number is, a worker's quota is never below the
/// configured one, lies above it unless the counter ends there, and exceeds it
/// by no more than half of it, or by one.
pub proof fn the_quota_jitter_is_bounded(max: u64, entropy: u64)
    requires
        max > 0,
    ensures
        max <= jittered(max, entropy),
        max < u64::MAX ==> max < jittered(max, entropy),
        jittered(max, entropy) <= max + grace(max),
{
    let g = grace(max);
    assert(0 <= entropy % g < g) by (nonlinear_arith)
        requires
            g > 0,
            entropy >= 0,
    ;
}

/// A worker that is ready for its first job.
pub struct StartedWorker {
    pub board: WorkerBoard,
    /// Nobody else sees its slot: it reports on a board of its own.
    pub private: bool,
}

/// Starts a worker: its slot is bound, the quota and the hooks are installed.
pub fn start_worker(hooks: WorkerHooks, pid: u32, now_ms: u64) -> (r: StartedWorker)
    ensures
        r.private == (hooks.slot is None),
        r.board@ == (BoardView {
            slot: Some(bound_slot(pid, now_ms)),
            draining: false,
            quota: QuotaState {
                served: 0,
                max: hooks.max_requests,
                on_quota: hooks.on_quota,
                on_unhealthy: hooks.on_unhealthy,
            },
            due: Seq::empty(),
        }),
{
    let private = hooks.slot.is_none();
    let mut slot: SharedSlot = match hooks.slot {
        Some(s) => s,
        None => SharedSlot {
            state: 0,
            pid: 0,
            handled: 0,
            errors: 0,
            recycles: 0,
            restarts: 0,
            unhealthy: 0,
            last_activity_ms: 0,
        },
    };
    slot.bind(pid, now_ms);
    let quota = install(hooks.max_requests, hooks.on_quota, hooks.on_unhealthy);
    let mut board = WorkerBoard { slot: None, draining: false, quota, due: Vec::new() };
    sb_set(&mut board, slot);
    assert(board.due@ =~= Seq::empty());
    StartedWorker { board, private }
}

/// The engine's modules are loaded; going out of scope is what unloads them.
pub struct PhpModule {}

/// A release line of the engine: structures keep their layout within one.
#[derive(Clone, Copy, Debug, PartialEq, Eq, Structural)]
pub struct EngineVersion {
    pub major: u32,
    pub minor: u32,
}

/// Why the engine did not boot.
#[derive(Clone, Copy, Debug, PartialEq, Eq, Structural)]
pub enum BootFault {
    /// The linked engine is of another release line than the one whose
    /// structures were bound.
    VersionMismatch { bound: EngineVersion, linked: EngineVersion },
    /// Its modules did not start.
    StartupFailed,
}

/// Refuses an engine of another release line. The patch level may differ.
pub fn check_engine(bound: EngineVersion, linked: EngineVersion) -> (r: Result<(), BootFault>)
    ensures
        r == (if bound.major == linked.major && bound.minor == linked.minor {
            Ok::<(), BootFault>(())
        } else {
            Err::<(), BootFault>(BootFault::VersionMismatch { bound, linked })
        }),
{
    if bound.major == linked.major && bound.minor == linked.minor {
        Ok(())
    } else {
        Err(BootFault::VersionMismatch { bound, linked })
    }
}

/// The engine, once it was found to be of the bound release line and its modules
/// started; a failed start has nothing to unload.
pub fn boot_master(bound: EngineVersion, linked: EngineVersion, started: bool) -> (r: Result<
    PhpModule,
    BootFault,
>)
    ensures
        bound != linked ==> r == Err::<PhpModule, BootFault>(
            BootFault::VersionMismatch { bound, linked },
        ),
        bound == linked && !started ==> r == Err::<PhpModule, BootFault>(BootFault::StartupFailed),
        bound == linked && started ==> r is Ok,
{
    match check_engine(bound, linked) {
        Err(fault) => Err(fault),
        Ok(()) => if started {
            Ok(PhpModule {  })
        } else {
            Err(BootFault::StartupFailed)
        },
    }
}

/// The counters of a pool that has a board of its own; without one there are
/// none.
pub fn pool_snapshot(board: &Option<Scoreboard>) -> (r: ScoreboardSnapshot)
    requires
        board matches Some(b) ==> totals_fit(pool_counters(b.slots@)),
    ensures
        match *board {
            Some(b) => sums_up(r, pool_counters(b.slots@)),
            None => r.workers@.len() == 0 && r.handled == 0 && r.errors == 0 && r.recycles == 0
                && r.restarts == 0 && r.unhealthy == 0,
        },
{
    match board {
        Some(b) => snapshot(b),
        None => ScoreboardSnapshot {
            handled: 0,
            errors: 0,
            recycles: 0,
            restarts: 0,
            unhealthy: 0,
            workers: Vec::new(),
        },
    }
}

/// Whether the engine's modules may be unloaded: not while the worker thread
/// still runs. `finished` is none where there was no worker.
pub fn may_unload(finished: Option<bool>) -> (r: bool)
    ensures
        r == (finished == Some(true)),
{
    match finished {
        Some(f) => f,
        None => false,
    }
}

/// What a slot's state is called.
pub open spec fn state_text(state: u32) -> Seq<char> {
    if state == SLOT_STARTING {
        "starting"@
    } else if state == SLOT_IDLE {
        "idle"@
    } else if state == SLOT_ACTIVE {
        "active"@
    } else if state == SLOT_DRAINING {
        "draining"@
    } else {
        "free"@
    }
}

/// What a slot's state is called.
pub fn state_name(state: u32) -> (r: &'static str)
    ensures
        r@ == state_text(state),
{
    if state == SLOT_STARTING {
        "starting"
    } else if state == SLOT_IDLE {
        "idle"
    } else if state == SLOT_ACTIVE {
        "active"
    } else if state == SLOT_DRAINING {
        "draining"
    } else {
        "free"
    }
}

/// A worker's live counters, as its script may ask for them.
pub struct RuntimeInfo {
    pub state: &'static str,
    pub pid: u32,
    pub queued: u64,
    pub handled: u64,
    pub errors: u64,
    pub recycles: u64,
    pub restarts: u64,
}

/// A worker's live counters; none where it has no slot.
pub fn runtime_info(board: &WorkerBoard, queued: u64) -> (r: Option<RuntimeInfo>)
    ensures
        match board.slot {
            None => r is None,
            Some(s) => r matches Some(i) && i.state@ == state_text(s.state) && i.pid == s.pid
                && i.queued == queued && i.handled == s.handled && i.errors == s.errors
                && i.recycles == s.recycles && i.restarts == s.restarts,
        },
{
    match board.slot {
        None => None,
        Some(s) => Some(
            RuntimeInfo {
                state: state_name(s.state),
                pid: s.pid,
                queued,
                handled: s.handled,
                errors: s.errors,
                recycles: s.recycles,
                restarts: s.restarts,
            },
        ),
    }
}

/// What a pool's spool directories are called, before the number of the process
/// that owns one.
pub open spec fn spool_prefix() -> Seq<char> {
    "rapira-spool-"@
}

/// A whole number may carry one leading plus sign.
pub open spec fn positive_part(s: Seq<char>) -> Seq<char> {
    if s.len() > 1 && s[0] == '+' {
        s.drop_first()
    } else {
        s
    }
}

/// The process that a spool directory's name says it belongs to.
pub open spec fn owner_of(name: Seq<char>) -> Option<nat> {
    let prefix = spool_prefix();
    if prefix.is_prefix_of(name) {
        match parsed_number(positive_part(name.skip(prefix.len() as int)), i32::MAX as nat) {
            Some(n) => if n > 0 {
                Some(n)
            } else {
                None
            },
            None => None,
        }
    } else {
        None
    }
}

/// The process that a spool directory's name says it belongs to; none for any
/// other name.
pub fn spool_owner(name: &str) -> (r: Option<i32>)
    ensures
        r is Some <==> owner_of(name@) is Some,
        r matches Some(pid) ==> owner_of(name@) == Some(pid as nat) && pid > 0,
{
    let chars = chars_of(name);
    let prefix = chars_of("rapira-spool-");
    let n: usize = prefix.len();
    if chars.len() < n {
        return None;
    }
    for i in 0..n
        invariant
            chars@ == name@,
            prefix@ == spool_prefix(),
            n == prefix@.len(),
            n <= chars@.len(),
            forall|k: int| 0 <= k < i ==> chars@[k] == prefix@[k],
    {
        if chars[i] != prefix[i] {
            assert(name@.subrange(0, n as int)[i as int] != spool_prefix()[i as int]);
            return None;
        }
    }
    assert(name@.subrange(0, n as int) =~= spool_prefix());
    let ghost rest = name@.skip(n as int);
    let from: usize = if chars.len() - n > 1 && chars[n] == '+' {
        n + 1
    } else {
        n
    };
    let mut digits: Vec<char> = Vec::new();
    for i in from..chars.len()
        invariant
            from <= chars@.len(),
            digits@ == chars@.subrange(from as int, i as int),
    {
        digits.push(chars[i]);
        assert(digits@ =~= chars@.subrange(from as int, i as int + 1));
    }
    assert(digits@ =~= positive_part(rest));
    match parse_chars(digits.as_slice(), i32::MAX as u64) {
        Some(p) => {
            if p > 0 {
                Some(p as i32)
            } else {
                None
            }
        },
        None => None,
    }
}

/// Whether a spool directory may be swept; `owner_gone` says that the process
/// it names no longer exists.
pub fn spool_dir_reclaimable(name: &str, owner_gone: bool) -> (r: bool)
    ensures
        r == (owner_of(name@) is Some && owner_gone),
{
    match spool_owner(name) {
        Some(_) => owner_gone,
        None => false,
    }
}

/// How a pool runs, as configured.
#[derive(Clone, Copy, Debug, PartialEq, Eq, Structural)]
pub enum RunMode {
    Classic,
    Worker,
    Dispatcher,
}

/// The old switch for classic mode and another mode were both asked for.
#[derive(Clone, Copy, Debug, PartialEq, Eq, Structural)]
pub struct ModeConflict {}

impl ModeConflict {
    /// What the command line is told.
    pub fn message(&self) -> (r: &'static str)
        ensures
            r@ == "--classic conflicts with --mode; use --mode classic"@,
    {
        "--classic conflicts with --mode; use --mode classic"
    }
}

/// The run mode that the command line asks for: the old switch for classic mode
/// is an alias, and conflicts with any other mode.
pub fn mode_flag(classic: bool, mode: Option<RunMode>) -> (r: Result<
    Option<RunMode>,
    ModeConflict,
>)
    ensures
        r == (if classic && (mode matches Some(m) && m != RunMode::Classic) {
            Err::<Option<RunMode>, ModeConflict>(ModeConflict {  })
        } else if mode is None && classic {
            Ok(Some(RunMode::Classic))
        } else {
            Ok(mode)
        }),
{
    match mode {
        Some(m) => {
            if classic && m != RunMode::Classic {
                Err(ModeConflict {  })
            } else {
                Ok(Some(m))
            }
        },
        None => {
            if classic {
                Ok(Some(RunMode::Classic))
            } else {
                Ok(None)
            }
        },
    }
}

/// The mode of a pool with its script.
pub fn pool_mode(mode: RunMode, script: Vec<u8>) -> (r: Mode)
    ensures
        r == (match mode {
            RunMode::Classic => Mode::Classic,
            RunMode::Worker => Mode::Worker(script),
            RunMode::Dispatcher => Mode::Dispatcher(script),
        }),
{
    match mode {
        RunMode::Classic => Mode::Classic,
        RunMode::Worker => Mode::Worker(script),
        RunMode::Dispatcher => Mode::Dispatcher(script),
    }
}

/// Whether a pool serves superglobals: only a dispatcher's does not.
pub fn serves_superglobals(mode: &Mode) -> (r: bool)
    ensures
        r == !(*mode is Dispatcher),
{
    match mode {
        Mode::Dispatcher(_) => false,
        _ => true,
    }
}

/// The board of a pool: two slots per process, so that replacements overlap.
/// None where that is more than a board can have.
pub fn pool_board(processes: usize) -> (r: Option<Scoreboard>)
    ensures
        r is Some <==> 1 <= processes <= SB_MAX_SLOTS / 2,
        r matches Some(b) ==> b.slots@ == Seq::new((processes * 2) as nat, |i: int| blank_slot()),
{
    if processes > SB_MAX_SLOTS / 2 {
        return None;
    }
    match Scoreboard::create(processes * 2) {
        Ok(b) => Some(b),
        Err(_) => None,
    }
}

/// A log filter: the level for everything, then a level per target.
pub open spec fn filter_text(level: Seq<char>, targets: Seq<(Seq<char>, Seq<char>)>) -> Seq<char>
    decreases targets.len(),
{
    if targets.len() == 0 {
        level
    } else {
        filter_text(level, targets.drop_last()) + ","@ + targets.last().0 + "="@ + targets.last().1
    }
}

/// The content of a list of pairs of texts.
pub open spec fn text_pairs(s: Seq<(String, String)>) -> Seq<(Seq<char>, Seq<char>)> {
    s.map_values(|p: (String, String)| (p.0@, p.1@))
}

/// A log filter from the configured levels.
pub fn log_filter(level: &str, targets: &Vec<(String, String)>) -> (r: String)
    ensures
        r@ == filter_text(level@, text_pairs(targets@)),
{
    let ghost all = text_pairs(targets@);
    let mut r = copy_text(level);
    assert(r@ == filter_text(level@, all.take(0)));
    for i in 0..targets.len()
        invariant
            all == text_pairs(targets@),
            r@ == filter_text(level@, all.take(i as int)),
    {
        proof {
            crate::seqs::lemma_take_push(all, i as int);
            assert(all.take(i + 1).drop_last() =~= all.take(i as int));
        }
        r.push_str(",");
        r.push_str(targets[i].0.as_str());
        r.push_str("=");
        r.push_str(targets[i].1.as_str());
    }
    proof {
        crate::seqs::lemma_take_all(all);
    }
    r
}

/// Keeps the configuration that a script declared for its handler; a call
/// without one changes nothing.
pub fn set_handler_config(cell: &mut Option<Vec<u8>>, config: Option<Vec<u8>>)
    ensures
        *final(cell) == (match config {
            Some(c) => Some(c),
            None => *old(cell),
        }),
{
    if let Some(c) = config {
        *cell = Some(c);
    }
}

/// The resident gRPC loop has no contract yet: it ends at once.
pub fn handle_grpc_request() -> (r: bool)
    ensures
        !r,
{
    false
}

/// Whether the environment's log filter replaces the configured one: only a
/// value that is not blank does.
pub fn env_filter_wins(value: Option<&str>) -> (r: bool)
    ensures
        r == (value matches Some(v) && trimmed(v@).len() > 0),
{
    match value {
        Some(v) => chars_of(v.trim()).len() > 0,
        None => false,
    }
}

} // verus!
