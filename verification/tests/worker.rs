use rapira::classic::{
    classic_executor, early_error, status_for_open_error, ClassicRun, OpenError, ScriptRun,
};
use rapira::context::Context;
use rapira::cycle::{CycleState, Desk};
use rapira::diagnostics::{
    error_type_to_level, syslog_to_level, Level, E_CORE_WARNING, E_DEPRECATED, E_FATAL_ERRORS,
    E_USER_WARNING, E_WARNING,
};
use rapira::frames::Frame;
use rapira::intake::{
    intake_step, park_step, rearm_secs, HandleError, InflightReqCount, IntakeOffer, IntakeStep,
    ParkStep, PendingGuard,
};
use rapira::process::{
    boot_master, check_engine, effective_quota, env_filter_wins, handle_grpc_request, log_filter,
    may_unload, mode_flag, pool_board, pool_mode, pool_snapshot, runtime_info, serves_superglobals,
    set_handler_config, spool_dir_reclaimable, spool_owner, start_worker, ExitCode, ExitRequest,
    ExitState, RunMode, BootFault, EngineVersion, ModeConflict,
};
use rapira::quota::{Hook, WorkerHooks};
use rapira::resident::{
    first_call, handle_request, handle_request_gate, needs_flush, run_cycle, shed, throw_gate,
    worker_main_loops, worth_handling, Cycle, GateFault, HandlerRun, WorkerExit, WorkerLoop,
    WorkerStep,
};
use rapira::scoreboard::{
    Scoreboard, SB_MAX_SLOTS, SLOT_ACTIVE, SLOT_DRAINING, SLOT_FREE, SLOT_IDLE, SLOT_STARTING,
};
use rapira::types::{Addr, Body, Mode, Outcome, Request};
use rapira::verbs::ThrowClass;
use rapira::worker_board::{sb_set, sb_update, take_due, Event, WorkerBoard};

#[test]
fn create_bind_snapshot_roundtrip() {
    let mut sb = Scoreboard::create(3).unwrap();
    assert_eq!(sb.nslots(), 3);
    assert_eq!(sb.slot(0).unwrap().state, SLOT_FREE);

    sb.set_starting(0, 1);
    assert_eq!(sb.slot(0).unwrap().state, SLOT_STARTING);
    assert_eq!(sb.slot(1).unwrap().state, SLOT_FREE);

    let slot = &mut sb.slots[0];
    slot.bind(4242, 2);
    slot.handled += 2;
    slot.errors += 1;

    let snap = sb.snapshot_slots();
    assert_eq!(snap.len(), 1);
    assert_eq!((snap[0].pid, snap[0].handled, snap[0].errors), (4242, 2, 1));
    assert_eq!(snap[0].state, SLOT_IDLE);

    sb.clear(0);
    assert_eq!(sb.slot(0).unwrap().state, SLOT_FREE);
    assert!(sb.snapshot_slots().is_empty());
}

#[test]
fn slots_out_of_range_rejected() {
    assert!(Scoreboard::create(0).is_err());
    assert!(Scoreboard::create(SB_MAX_SLOTS + 1).is_err());
}

fn hooks(max_requests: u64) -> WorkerHooks {
    WorkerHooks { max_requests, on_quota: true, on_unhealthy: true, slot: None }
}

fn board(max_requests: u64) -> WorkerBoard {
    start_worker(hooks(max_requests), 77, 5).board
}

#[test]
fn the_quota_fires_once_and_drains_the_slot() {
    let mut b = board(2);
    sb_update(&mut b, Event::Active, 10);
    sb_update(&mut b, Event::Handled(false), 0);
    assert!(take_due(&mut b).is_empty());
    sb_update(&mut b, Event::Handled(true), 0);
    assert_eq!(take_due(&mut b), vec![Hook::Quota]);
    sb_update(&mut b, Event::Handled(false), 0);
    assert!(take_due(&mut b).is_empty());
    let s = b.slot.unwrap();
    assert_eq!((s.handled, s.errors, s.state), (3, 1, SLOT_ACTIVE));
    sb_update(&mut b, Event::Idle, 20);
    let s = b.slot.unwrap();
    assert_eq!((s.state, s.last_activity_ms), (SLOT_DRAINING, 20));
}

#[test]
fn a_parked_worker_flips_to_draining_at_once() {
    let mut b = board(0);
    assert_eq!(b.slot.unwrap().state, SLOT_IDLE);
    sb_update(&mut b, Event::Unhealthy, 0);
    assert_eq!(take_due(&mut b), vec![Hook::Unhealthy]);
    let s = b.slot.unwrap();
    assert_eq!((s.state, s.unhealthy), (SLOT_DRAINING, 1));
    sb_update(&mut b, Event::Unhealthy, 0);
    assert!(take_due(&mut b).is_empty());
    sb_update(&mut b, Event::Healthy, 0);
    sb_update(&mut b, Event::Recycled, 0);
    sb_update(&mut b, Event::Restart, 0);
    let s = b.slot.unwrap();
    assert_eq!((s.unhealthy, s.recycles, s.restarts), (0, 1, 1));
}

/// Each counter counts its own events, whatever comes in between.
#[test]
fn a_run_of_events_is_counted_event_by_event() {
    let mut b = board(0);
    let run = [
        Event::Active,
        Event::Handled(false),
        Event::Recycled,
        Event::Draining,
        Event::Handled(true),
        Event::Idle,
        Event::Restart,
        Event::Recycled,
        Event::Healthy,
        Event::Handled(true),
        Event::Idle,
    ];
    for e in run {
        sb_update(&mut b, e, 1);
    }
    let s = b.slot.unwrap();
    assert_eq!((s.handled, s.errors, s.recycles, s.restarts), (3, 2, 2, 1));
    assert!(b.draining);
    assert_eq!(s.state, SLOT_DRAINING);
    let mut top = s;
    top.handled = u64::MAX;
    sb_set(&mut b, top);
    sb_update(&mut b, Event::Handled(false), 1);
    assert_eq!(b.slot.unwrap().handled, 0, "a counter wraps");
}

#[test]
fn nothing_is_recorded_without_a_slot() {
    let mut b = board(1);
    b.slot = None;
    sb_update(&mut b, Event::Handled(true), 0);
    assert!(take_due(&mut b).is_empty());
    assert_eq!(b.quota.served, 0);
    assert!(runtime_info(&b, 0).is_none());
}

#[test]
fn a_worker_starts_bound_and_counting() {
    let started = start_worker(hooks(3), 77, 5);
    assert!(started.private);
    let info = runtime_info(&started.board, 9).unwrap();
    assert_eq!((info.state, info.pid, info.queued, info.handled), ("idle", 77, 9, 0));
    let mut b = started.board;
    let mut slot = b.slot.unwrap();
    slot.handled = 4;
    sb_set(&mut b, slot);
    assert_eq!(runtime_info(&b, 0).unwrap().handled, 4);
}

#[test]
fn a_pool_sums_its_workers() {
    let mut sb = Scoreboard::create(3).unwrap();
    sb.slots[0].bind(10, 0);
    sb.slots[0].handled = 5;
    sb.slots[2].bind(12, 0);
    sb.slots[2].handled = 7;
    sb.slots[2].errors = 2;
    sb.slots[2].unhealthy = 1;
    let snap = pool_snapshot(&Some(sb));
    assert_eq!((snap.handled, snap.errors, snap.unhealthy), (12, 2, 1));
    let ids: Vec<usize> = snap.workers.iter().map(|w| w.id).collect();
    assert_eq!(ids, [0, 2]);
    assert_eq!(pool_snapshot(&None).workers.len(), 0);
}

fn desk() -> Desk {
    Desk { cycle: CycleState::idle(), board: board(0) }
}

fn context() -> Context<u32> {
    let (tx, _rx) = tokio::sync::mpsc::channel(4);
    let req = Request {
        method: "GET".to_string(),
        uri: "/".to_string(),
        target: None,
        authority: None,
        https: false,
        query: String::new(),
        protocol: String::new(),
        remote: Addr::Unix(None),
        server: Addr::Unix(None),
        server_name: String::new(),
        server_port: 0,
        script_name: String::new(),
        document_root: String::new(),
        script_filename: Vec::new(),
        headers: Vec::new(),
        server_vars: Vec::new(),
        content_type: None,
        content_length: 0,
        body: Body::Raw { data: Vec::new(), pos: 0 },
        received_at: None,
        tls: None,
    };
    Context::new(req, tx, true)
}

fn summary(frames: &[Frame<u32>]) -> (Option<u16>, usize, bool) {
    let (mut status, mut len, mut cut) = (None, 0, false);
    for f in frames {
        match f {
            Frame::Head { head, .. } => status = Some(head.status),
            Frame::Chunk(b) => len += b.len(),
            Frame::End { truncated, .. } => cut = *truncated,
            _ => {}
        }
    }
    (status, len, cut)
}

/// A bootstrap that never takes work is a boot failure: the shed path answers
/// 503, never a hang or an empty 200.
#[test]
fn never_looping_script_sheds_503() {
    let mut d = desk();
    let mut w = WorkerLoop { failures: 0 };
    let c = run_cycle(&mut d, false, false);
    assert_eq!(c, Cycle::Failed);
    assert_eq!(w.after_cycle(&mut d.board, c), WorkerStep::Shed);
    let mut ctx = context();
    let out = shed(&mut d, &mut ctx).expect("a 503");
    assert_eq!(summary(&out.frames), (Some(503), 0, false));
    assert_eq!(d.board.slot.unwrap().errors, 1);
    assert_eq!(w.after_shed(true), WorkerStep::Again);
    assert_eq!(w.after_shed(false), WorkerStep::Exit(WorkerExit::Closed));
}

/// The failure that reaches the limit flags the worker, and no later one does
/// again; work in between starts the count over.
#[test]
fn five_failed_boots_flag_the_worker() {
    let mut d = desk();
    let mut w = WorkerLoop { failures: 0 };
    for _ in 0..4 {
        w.after_cycle(&mut d.board, Cycle::Failed);
    }
    w.after_cycle(&mut d.board, Cycle::Recycle);
    for n in 1..=6 {
        w.after_cycle(&mut d.board, Cycle::Failed);
        assert_eq!(d.board.slot.unwrap().unhealthy, u32::from(n >= 5), "{n}");
    }
    assert_eq!(take_due(&mut d.board), vec![Hook::Unhealthy]);
}

/// `exit()` after serving must recycle: the script re-runs and the worker keeps
/// serving instead of shedding as a boot failure.
#[test]
fn exit_after_serving_recycles_the_worker() {
    let mut d = desk();
    d.cycle.note_received();
    d.cycle.note_served();
    assert_eq!(run_cycle(&mut d, false, false), Cycle::Recycle);
}

/// A script that ends its own loop with the channel open classifies as recycle.
#[test]
fn self_stopping_loop_recycles_and_serves_again() {
    let mut d = desk();
    d.cycle.note_received();
    let c = run_cycle(&mut d, false, false);
    assert_eq!(c, Cycle::Recycle);
    let mut w = WorkerLoop { failures: 3 };
    assert_eq!(w.after_cycle(&mut d.board, c), WorkerStep::Again);
    assert_eq!(w.failures, 0);
}

/// Closing the intake stops the worker cleanly.
#[test]
fn drain_returns_false_and_the_script_completes() {
    let mut d = desk();
    d.cycle.note_served();
    d.cycle.note_closed();
    let c = run_cycle(&mut d, false, false);
    assert_eq!(c, Cycle::Stop);
    let mut w = WorkerLoop { failures: 0 };
    assert_eq!(w.after_cycle(&mut d.board, c), WorkerStep::Exit(WorkerExit::Closed));
    assert!(!worker_main_loops(WorkerExit::Closed));
}

#[test]
fn a_bailed_shutdown_restarts_the_thread() {
    let mut d = desk();
    d.cycle.note_closed();
    assert_eq!(run_cycle(&mut d, true, true), Cycle::Restart);
    assert_eq!(d.board.slot.unwrap().restarts, 1);
    assert!(worker_main_loops(WorkerExit::Restart));
}

/// exit() inside a handler finishes that response and keeps the resident loop
/// alive: it is not a recycle.
#[test]
fn exit_in_a_handler_survives_the_worker() {
    let mut d = desk();
    let mut ctx = context();
    ctx.write_output(200, b"n=1");
    let run = HandlerRun {
        outcome: Outcome::Exit,
        flushed: Outcome::Completed,
        teardown: Outcome::Completed,
    };
    let h = handle_request(&mut d, &mut ctx, run);
    assert!(!h.recycle);
    assert_eq!(summary(&h.outgoing.unwrap().frames), (Some(200), 3, false));
    assert_eq!(d.board.slot.unwrap().errors, 0);
}

#[test]
fn a_throw_is_an_error_but_no_recycle() {
    let mut d = desk();
    let mut ctx = context();
    let run = HandlerRun {
        outcome: Outcome::Throw,
        flushed: Outcome::Completed,
        teardown: Outcome::Completed,
    };
    assert!(needs_flush(run.outcome));
    let h = handle_request(&mut d, &mut ctx, run);
    assert!(!h.recycle);
    assert_eq!(summary(&h.outgoing.unwrap().frames), (Some(500), 0, false));
    let s = d.board.slot.unwrap();
    assert_eq!((s.errors, s.recycles), (1, 0));
}

#[test]
fn a_bailout_anywhere_recycles_and_cuts_a_streaming_body() {
    let mut d = desk();
    let mut ctx = context();
    ctx.write_output(200, b"part");
    let run = HandlerRun {
        outcome: Outcome::Completed,
        flushed: Outcome::Completed,
        teardown: Outcome::Bailout,
    };
    let h = handle_request(&mut d, &mut ctx, run);
    assert!(h.recycle);
    assert_eq!(summary(&h.outgoing.unwrap().frames), (Some(200), 4, true));
    assert_eq!(d.board.slot.unwrap().recycles, 1);
    assert!(!first_call(&mut d.board, Outcome::Bailout));
    assert!(first_call(&mut d.board, Outcome::Exit));
}

/// The gates refuse before the shared intake is touched.
#[test]
fn handle_request_outside_worker_mode_throws() {
    let worker = Mode::Worker(Vec::new());
    assert_eq!(
        handle_request_gate(&Mode::Classic, false),
        Some(GateFault::NotInWorkerMode)
    );
    assert_eq!(throw_gate(GateFault::NotInWorkerMode).0, ThrowClass::NotInWorkerMode);
    assert_eq!(handle_request_gate(&worker, false), None);
    let mut d = desk();
    assert!(!worth_handling(&mut d, true));
    assert!(!d.cycle.received_any());
    assert!(worth_handling(&mut d, false));
    assert!(d.cycle.received_any());
}

#[test]
fn handle_request_in_dispatcher_mode_throws() {
    assert_eq!(
        handle_request_gate(&Mode::Dispatcher(Vec::new()), false).map(throw_gate),
        Some((ThrowClass::NotInWorkerMode, "nothing feeds requests outside worker mode"))
    );
}

/// handle_request() from inside its own handler is refused.
#[test]
fn nested_handle_request_is_refused() {
    assert_eq!(
        handle_request_gate(&Mode::Worker(Vec::new()), true),
        Some(GateFault::Nested)
    );
    assert_eq!(
        throw_gate(GateFault::Nested),
        (ThrowClass::Error, "handle_request() may not be called from inside its handler")
    );
}

#[test]
fn outcomes_are_read_from_the_engine() {
    assert_eq!(Outcome::from_c(0), Outcome::Completed);
    assert_eq!(Outcome::from_c(1), Outcome::Bailout);
    assert_eq!(Outcome::from_c(2), Outcome::Exit);
    assert_eq!(Outcome::from_c(3), Outcome::Throw);
    assert_eq!(Outcome::from_c(-9), Outcome::Bailout);
}

#[test]
fn a_script_that_cannot_be_opened_has_its_status() {
    assert_eq!(status_for_open_error(OpenError::NotFound), 404);
    assert_eq!(status_for_open_error(OpenError::PermissionDenied), 403);
    assert_eq!(status_for_open_error(OpenError::Other), 500);
    let mut d = desk();
    let mut ctx = context();
    let run = ClassicRun::NotOpened(OpenError::NotFound);
    ctx.send_error_head(early_error(run).unwrap());
    let out = classic_executor(&mut d, &mut ctx, run).unwrap();
    assert_eq!(summary(&out.frames), (Some(404), 0, false));
    assert_eq!(d.board.slot.unwrap().errors, 1);
}

#[test]
fn a_classic_exit_is_no_failure_but_a_fatal_is() {
    let exit = ScriptRun { completed: false, unclean: false, last_error: Some(E_WARNING as i32) };
    let mut d = desk();
    let mut ctx = context();
    ctx.write_output(200, b"bye");
    let out = classic_executor(&mut d, &mut ctx, ClassicRun::Ran(exit)).unwrap();
    assert_eq!(summary(&out.frames), (Some(200), 3, false));
    assert_eq!(d.board.slot.unwrap().errors, 0);

    let fatal = ScriptRun { completed: false, unclean: false, last_error: Some(1) };
    let mut ctx = context();
    let out = classic_executor(&mut d, &mut ctx, ClassicRun::Ran(fatal)).unwrap();
    assert_eq!(summary(&out.frames), (Some(500), 0, false));
    assert_eq!(d.board.slot.unwrap().errors, 1);
}

const E_ERROR: u32 = 1 << E_FATAL_ERRORS.trailing_zeros();

fn level_of(err_type: u32, mask: u32) -> (Level, &'static str) {
    error_type_to_level(err_type as i32, mask as i32)
}

/// The fatal arm is matched before the warning arm, and the mask clause skips
/// fatals.
#[test]
fn fatals_outrank_a_warning_bit_and_ignore_the_mask() {
    assert_eq!(level_of(E_ERROR | E_WARNING, E_WARNING), (Level::Error, "Fatal error"));
    assert_eq!(level_of(E_ERROR, 0), (Level::Error, "Fatal error"));
}

/// A masked non-fatal drops to `Trace` with its label intact.
#[test]
fn a_masked_warning_drops_to_trace_with_its_label() {
    assert_eq!(level_of(E_USER_WARNING, 0), (Level::Trace, "Warning"));
    assert_eq!(level_of(E_USER_WARNING, E_USER_WARNING), (Level::Warn, "Warning"));
}

/// Core diagnostics are exempt from the mask.
#[test]
fn core_warnings_survive_an_empty_mask() {
    assert_eq!(level_of(E_CORE_WARNING, 0), (Level::Warn, "Warning"));
}

/// A type no arm recognizes reports at `Warn`, and is still subject to the mask.
#[test]
fn an_unknown_error_type_still_obeys_the_mask() {
    let unknown = 1 << 20;
    assert_eq!(level_of(unknown, unknown), (Level::Warn, "Unknown error"));
    assert_eq!(level_of(unknown, 0), (Level::Trace, "Unknown error"));
}

/// A type without a bit has nothing to test against the mask.
#[test]
fn a_zero_error_type_reports_unknown_at_warn() {
    assert_eq!(level_of(0, 0), (Level::Warn, "Unknown error"));
}

/// The severity boundaries are a contract with the configured level.
#[test]
fn syslog_severities_keep_their_boundaries() {
    for (priority, want) in [
        (0, Level::Error),
        (1, Level::Error),
        (2, Level::Error),
        (3, Level::Error),
        (4, Level::Warn),
        (5, Level::Info),
        (6, Level::Debug),
        (7, Level::Debug),
    ] {
        assert_eq!(syslog_to_level(priority), want, "priority {priority}");
    }
}

/// A priority off the scale reports at `Info`.
#[test]
fn an_out_of_range_syslog_priority_falls_back_to_info() {
    assert_eq!(syslog_to_level(8), Level::Info);
    assert_eq!(syslog_to_level(-1), Level::Info);
}

/// Both paths sort a deprecation below `Info`.
#[test]
fn both_paths_sort_deprecations_below_info() {
    let (level, label) = level_of(E_DEPRECATED, E_DEPRECATED);
    assert_eq!(label, "Deprecated");
    assert!(level > Level::Info);
    assert!(syslog_to_level(6) > Level::Info);
}

/// The sweep reclaims only directories whose owning process is gone.
#[test]
fn spool_sweep_reclaims_only_dead_pid_dirs() {
    for gone in [false, true] {
        assert!(!spool_dir_reclaimable("other-dir", gone));
        assert!(!spool_dir_reclaimable("rapira-spool-", gone));
        assert!(!spool_dir_reclaimable("rapira-spool-x", gone));
        assert!(!spool_dir_reclaimable("rapira-spool--5", gone));
        assert!(!spool_dir_reclaimable("rapira-spool-0", gone));
    }
    assert!(!spool_dir_reclaimable("rapira-spool-4711", false));
    assert!(spool_dir_reclaimable("rapira-spool-4711", true));
    assert_eq!(spool_owner("rapira-spool-4711"), Some(4711));
    assert_eq!(spool_owner("rapira-spool-+12"), Some(12));
    assert_eq!(spool_owner("rapira-spool-2147483648"), None);
}

#[test]
fn the_first_exit_stands_unless_unhealthy_upgrades_it() {
    let mut e = ExitState { decided: None };
    assert_eq!(e.exit_code(false), ExitCode::Drained);
    assert_eq!(e.exit_code(true), ExitCode::Crashed);
    assert!(e.request_worker_exit(ExitRequest::Recycle));
    assert!(!e.request_worker_exit(ExitRequest::Recycle));
    assert_eq!(e.exit_code(true), ExitCode::Recycle);
    assert!(e.request_worker_exit(ExitRequest::Unhealthy));
    assert!(!e.request_worker_exit(ExitRequest::Recycle));
    assert_eq!(e.exit_code(false), ExitCode::Unhealthy);
}

#[test]
fn the_quota_is_jittered_upwards() {
    assert_eq!(effective_quota(0, 123), 0);
    assert_eq!(effective_quota(1, 123), 2);
    assert_eq!(effective_quota(100, 0), 101);
    assert_eq!(effective_quota(100, 49), 150);
    assert_eq!(effective_quota(100, 50), 101);
    assert_eq!(effective_quota(u64::MAX, 7), u64::MAX);
}

#[test]
fn intake_waits_then_sheds() {
    assert_eq!(intake_step(IntakeOffer::Accepted, true), IntakeStep::Serve);
    assert_eq!(intake_step(IntakeOffer::Full, false), IntakeStep::Retry);
    assert_eq!(
        intake_step(IntakeOffer::Full, true),
        IntakeStep::Refuse(HandleError::Saturated)
    );
    assert_eq!(
        intake_step(IntakeOffer::Disconnected, false),
        IntakeStep::Refuse(HandleError::Stopped)
    );
    assert_eq!(HandleError::Saturated.status(), 503);
    assert_eq!(HandleError::Stopped.status(), 500);
    assert_eq!(HandleError::Saturated.message(), "worker pool saturated for 30s");
}

#[test]
fn the_gauges_balance() {
    let mut pending = 3usize;
    let g = PendingGuard::arm(&mut pending);
    assert_eq!(pending, 4);
    g.release(&mut pending);
    assert_eq!(pending, 3);
    let g = PendingGuard::arm(&mut pending).disarm();
    g.release(&mut pending);
    assert_eq!(pending, 4);
    let mut inflight = 0usize;
    let c = InflightReqCount::init(&mut inflight);
    assert_eq!(inflight, 1);
    c.release(&mut inflight);
    assert_eq!(inflight, 0);
}

#[test]
fn a_parked_send_spins_then_naps() {
    assert_eq!(park_step(0), (ParkStep::Yield, 1));
    assert_eq!(park_step(63), (ParkStep::Yield, 64));
    assert_eq!(park_step(64), (ParkStep::Nap(100), 65));
    assert_eq!(park_step(u32::MAX), (ParkStep::Nap(100), u32::MAX));
    assert_eq!(rearm_secs(0, 4), None);
    assert_eq!(rearm_secs(30, 4), Some(26));
    assert_eq!(rearm_secs(30, 40), Some(1));
}

#[test]
fn a_pool_is_set_up_from_its_flags() {
    assert_eq!(mode_flag(false, None), Ok(None));
    assert_eq!(mode_flag(true, None), Ok(Some(RunMode::Classic)));
    assert_eq!(mode_flag(true, Some(RunMode::Classic)), Ok(Some(RunMode::Classic)));
    assert_eq!(mode_flag(true, Some(RunMode::Worker)), Err(ModeConflict {}));
    assert_eq!(
        ModeConflict {}.message(),
        "--classic conflicts with --mode; use --mode classic"
    );
    let m = pool_mode(RunMode::Dispatcher, b"/a.php".to_vec());
    assert!(matches!(&m, Mode::Dispatcher(s) if s == b"/a.php"));
    assert!(!serves_superglobals(&m));
    assert!(serves_superglobals(&Mode::Classic));
    assert_eq!(pool_board(4).unwrap().nslots(), 8);
    assert!(pool_board(0).is_none());
    assert!(pool_board(SB_MAX_SLOTS / 2 + 1).is_none());
    let v84 = EngineVersion { major: 8, minor: 4 };
    let v85 = EngineVersion { major: 8, minor: 5 };
    assert!(boot_master(v85, v85, true).is_ok());
    assert_eq!(boot_master(v85, v85, false).err(), Some(BootFault::StartupFailed));
    assert_eq!(
        boot_master(v85, v84, true).err(),
        Some(BootFault::VersionMismatch { bound: v85, linked: v84 })
    );
    assert_eq!(check_engine(v84, v84), Ok(()));
    assert!(check_engine(v84, EngineVersion { major: 9, minor: 4 }).is_err());
    assert!(may_unload(Some(true)) && !may_unload(Some(false)) && !may_unload(None));
    assert!(!handle_grpc_request());
}

#[test]
fn a_log_filter_lists_its_targets() {
    let targets = vec![
        ("http".to_string(), "debug".to_string()),
        ("php".to_string(), "off".to_string()),
    ];
    assert_eq!(log_filter("info", &targets), "info,http=debug,php=off");
    assert_eq!(log_filter("warn", &Vec::new()), "warn");
    assert!(env_filter_wins(Some(" trace ")));
    assert!(!env_filter_wins(Some(" \t")));
    assert!(!env_filter_wins(None));
}

#[test]
fn a_handler_config_is_kept() {
    let mut cell = None;
    set_handler_config(&mut cell, None);
    assert_eq!(cell, None);
    set_handler_config(&mut cell, Some(b"{}".to_vec()));
    set_handler_config(&mut cell, None);
    assert_eq!(cell, Some(b"{}".to_vec()));
}
