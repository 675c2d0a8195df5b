//! A worker's life as its pool sees it: what each event shows on its slot, how a
//! cycle ends, and what its faults are called.

use vstd::prelude::*;
use vstd::utf8::{encode_utf8, encode_utf8_decode_utf8};
use crate::app_log::case_level;
use crate::classic::{
    classic_failed, open_error_status, script_failed, ClassicRun, OpenError, ScriptRun,
};
use crate::cycle::{CycleState, DeskView};
use crate::diagnostics::{error_level, masked, syslog_level, Label, Level};
use crate::process::{
    decide, filter_text, grace, jittered, owner_of, positive_part, spool_prefix, state_text,
    ExitRequest,
};
use crate::resident::{cycle_end, handled_desk, Cycle, HandlerRun};
use crate::scoreboard::{bound_slot, occupied, reading, SharedSlot};
use crate::seqs::lemma_total_push;
use crate::text::{all_digits, decimal, digits_value, is_digit, lemma_decimal_reads_back};
use crate::types::Outcome;
use crate::worker_board::{
    counters, errors_of, handled_of, recorded, recycles_of, restarts_of, sums_up, unhealthy_of,
    BoardView, Event, ScoreboardSnapshot, WorkerStatSnapshot,
};

verus! {

/// A slot's states: 0 is free, 1 starting, 2 idle, 3 active and 4 draining, and
/// each is called so; anything else is called free.
pub proof fn each_state_has_its_name(state: u32)
    ensures
        state == 1 ==> state_text(state) == "starting"@,
        state == 2 ==> state_text(state) == "idle"@,
        state == 3 ==> state_text(state) == "active"@,
        state == 4 ==> state_text(state) == "draining"@,
        state == 0 || state > 4 ==> state_text(state) == "free"@,
{
}

/// An idle worker shows as idle, or as draining once it decided to exit; an
/// active one shows as active. Both stamp the slot, and touch nothing else.
pub proof fn a_slot_shows_what_its_worker_does(b: BoardView, now_ms: u64)
    requires
        b.slot is Some,
    ensures
        ({
            let s = b.slot->0;
            let idle = recorded(b, Event::Idle, now_ms);
            let active = recorded(b, Event::Active, now_ms);
            &&& idle.slot matches Some(t) && t.state == (if b.draining {
                4u32
            } else {
                2u32
            }) && t.last_activity_ms == now_ms && t.handled == s.handled && t.errors == s.errors
                && t.recycles == s.recycles && t.restarts == s.restarts && t.unhealthy
                == s.unhealthy && t.pid == s.pid
            &&& active.slot matches Some(t) && t.state == 3 && t.last_activity_ms == now_ms
                && t.handled == s.handled && t.errors == s.errors && t.recycles == s.recycles
                && t.restarts == s.restarts && t.unhealthy == s.unhealthy && t.pid == s.pid
            &&& idle.due == b.due && active.due == b.due
            &&& idle.draining == b.draining && active.draining == b.draining
            &&& idle.quota == b.quota && active.quota == b.quota
        }),
{
}

/// A worker that declares itself unhealthy is flagged until it is healthy again;
/// neither moves a counter.
pub proof fn an_unhealthy_worker_is_flagged(b: BoardView, now_ms: u64)
    requires
        b.slot is Some,
    ensures
        ({
            let s = b.slot->0;
            let ill = recorded(b, Event::Unhealthy, now_ms);
            let well = recorded(ill, Event::Healthy, now_ms);
            &&& ill.slot matches Some(t) && t.unhealthy == 1 && t.handled == s.handled && t.errors
                == s.errors && t.recycles == s.recycles && t.restarts == s.restarts
            &&& well.slot matches Some(t) && t.unhealthy == 0
            &&& reading(0, ill.slot->0).unhealthy && !reading(0, well.slot->0).unhealthy
        }),
{
}

/// A reading shows the slot's own values, and a slot shows unless it is free and
/// without a process.
pub proof fn a_reading_is_the_slots_own(id: usize, s: SharedSlot)
    ensures
        ({
            let r = reading(id as int, s);
            &&& r.id == id && r.pid == s.pid && r.state == s.state
            &&& r.handled == s.handled && r.errors == s.errors
            &&& r.recycles == s.recycles && r.restarts == s.restarts
            &&& r.unhealthy <==> s.unhealthy != 0
            &&& r.last_activity_ms == s.last_activity_ms
            &&& occupied(r) <==> s.state != 0 || s.pid != 0
        }),
{
}

/// A bound slot starts idle, with every counter at zero.
pub proof fn a_bound_slot_starts_from_zero(pid: u32, now_ms: u64)
    ensures
        ({
            let s = bound_slot(pid, now_ms);
            &&& s.state == 2 && s.pid == pid && s.last_activity_ms == now_ms
            &&& s.handled == 0 && s.errors == 0 && s.recycles == 0 && s.restarts == 0
            &&& s.unhealthy == 0
        }),
{
}

/// How a cycle ends: a bailed shutdown restarts the worker whatever else
/// happened; else a closed intake stops it; else a request to recycle, or any
/// work at all, recycles it; and a cycle that did nothing failed to boot.
pub proof fn a_cycle_ends_by_what_happened(c: CycleState, recycle: bool, bailed: bool)
    ensures
        cycle_end(c, recycle, bailed) == Cycle::Restart <==> bailed,
        cycle_end(c, recycle, bailed) == Cycle::Stop <==> !bailed && c.closed_seen,
        cycle_end(c, recycle, bailed) == Cycle::Recycle <==> !bailed && !c.closed_seen && (recycle
            || c.served || c.received),
        cycle_end(c, recycle, bailed) == Cycle::Failed <==> !bailed && !c.closed_seen && !recycle
            && !c.served && !c.received,
{
}

/// A bailout anywhere recycles the worker; a throw is a failure, but does not.
pub proof fn only_a_bailout_recycles(run: HandlerRun)
    ensures
        run.recycles() <==> run.outcome == Outcome::Bailout || run.flushed == Outcome::Bailout
            || run.teardown == Outcome::Bailout,
        run.failed() <==> run.recycles() || run.outcome == Outcome::Throw,
        run.outcome == Outcome::Exit && run.flushed != Outcome::Bailout && run.teardown
            != Outcome::Bailout ==> !run.failed(),
{
}

/// A decision to exit is never taken back: the first request decides, and an
/// unhealthy worker stays one.
pub proof fn an_unhealthy_exit_stands(d: Option<ExitRequest>, a: ExitRequest)
    ensures
        decide(None, a) == Some(a),
        decide(d, a) is Some,
        decide(d, a) == Some(ExitRequest::Unhealthy) <==> a == ExitRequest::Unhealthy || d == Some(
            ExitRequest::Unhealthy,
        ),
{
}

/// Every quota from one above the configured one up to half of it more can come
/// up, so that the workers of a pool do not recycle together. No quota stays
/// none.
pub proof fn the_quota_jitter_spreads(max: u64, k: u64)
    requires
        max < 0x7fff_ffff_ffff_ffff,
    ensures
        max == 0 ==> jittered(max, k) == 0,
        max >= 4 && k < max / 2 ==> jittered(max, k) == max + 1 + k,
        0 < max < 4 ==> jittered(max, k) == max + 1,
{
    if max >= 4 && k < max / 2 {
        assert(grace(max) == max / 2);
        assert(k % grace(max) == k) by (nonlinear_arith)
            requires
                k < max / 2,
                grace(max) == max / 2,
        ;
    } else if 0 < max < 4 {
        assert(grace(max) == 1);
        assert(k % 1 == 0);
    }
}

/// A script failed exactly when it did not complete and either left an unclean
/// state or recorded a fatal error; one that left by `exit()` did not.
pub proof fn an_exit_is_no_failure(run: ScriptRun)
    ensures
        run.completed ==> !script_failed(run),
        !run.completed && run.unclean ==> script_failed(run),
        !run.completed && !run.unclean && run.last_error is None ==> !script_failed(run),
        !run.completed && !run.unclean && run.last_error == Some(1i32) ==> script_failed(run),
        !run.completed && !run.unclean && run.last_error == Some(2i32) ==> !script_failed(run),
        classic_failed(ClassicRun::Ran(run)) == script_failed(run),
        classic_failed(ClassicRun::NotStarted),
        open_error_status(OpenError::NotFound) == 404,
        open_error_status(OpenError::PermissionDenied) == 403,
        open_error_status(OpenError::Other) == 500,
{
    assert(1u32 & 4437u32 != 0) by (bit_vector);
    assert(2u32 & 4437u32 == 0) by (bit_vector);
}

/// A fatal bit makes any type an error; else a warning bit a warning, a notice
/// bit a notice, a deprecation bit a deprecation, and no known bit leaves an
/// unknown error. Only a type that is neither fatal nor of the core can be
/// masked, and it keeps its label.
pub proof fn an_error_type_has_its_level(t: u32, mask: u32)
    ensures
        ({
            let fatal = t & 4437 != 0;
            let warning = t & 674 != 0;
            let notice = t & 1032 != 0;
            let deprecated = t & 24576 != 0;
            let hidden = t != 0 && !fatal && t & (mask | 48) == 0;
            let (level, label) = error_level(t, mask);
            &&& label == Label::Fatal <==> fatal
            &&& label == Label::Warning <==> !fatal && warning
            &&& label == Label::Notice <==> !fatal && !warning && notice
            &&& label == Label::Deprecated <==> !fatal && !warning && !notice && deprecated
            &&& label == Label::Unknown <==> !fatal && !warning && !notice && !deprecated
            &&& level == Level::Trace <==> hidden
            &&& !hidden ==> level == match label {
                Label::Fatal => Level::Error,
                Label::Warning => Level::Warn,
                Label::Notice => Level::Info,
                Label::Deprecated => Level::Debug,
                Label::Unknown => Level::Warn,
            }
        }),
{
}

/// The syslog scale: 0 to 3 are errors, 4 is a warning, 6 and 7 are for
/// debugging, and everything else informs.
pub proof fn a_priority_has_its_level(p: i32)
    ensures
        syslog_level(p) == Level::Error <==> p == 0 || p == 1 || p == 2 || p == 3,
        syslog_level(p) == Level::Warn <==> p == 4,
        syslog_level(p) == Level::Debug <==> p == 6 || p == 7,
        syslog_level(p) == Level::Info <==> p < 0 || p == 5 || p > 7,
{
}

/// One more target of a log filter follows a comma, as its name, an equals sign
/// and its level.
pub proof fn a_filter_lists_its_targets(
    level: Seq<char>,
    targets: Seq<(Seq<char>, Seq<char>)>,
    name: Seq<char>,
    own: Seq<char>,
)
    ensures
        filter_text(level, Seq::empty()) == level,
        filter_text(level, targets.push((name, own))) == filter_text(level, targets) + ","@ + name
            + "="@ + own,
{
    assert(targets.push((name, own)).drop_last() =~= targets);
}

/// A spool directory belongs to the process whose number follows the prefix; a
/// name without the prefix belongs to none.
pub proof fn a_spool_directory_names_its_owner(pid: nat, name: Seq<char>)
    ensures
        0 < pid <= 0x7fff_ffff ==> owner_of("rapira-spool-"@ + decimal(pid)) == Some(pid),
        !"rapira-spool-"@.is_prefix_of(name) ==> owner_of(name) is None,
        owner_of("rapira-spool-"@ + decimal(0)) is None,
{
    let p = "rapira-spool-"@;
    lemma_owner(p, pid);
    lemma_owner(p, 0);
}

proof fn lemma_owner(p: Seq<char>, pid: nat)
    requires
        p == spool_prefix(),
    ensures
        owner_of(p + decimal(pid)) == if 0 < pid <= 0x7fff_ffff {
            Some(pid)
        } else {
            None
        },
{
    let d = decimal(pid);
    lemma_decimal_reads_back(pid);
    assert((p + d).subrange(0, p.len() as int) =~= p);
    assert((p + d).skip(p.len() as int) =~= d);
    assert(is_digit(d[0]));
    assert(positive_part(d) == d);
}

/// A number reads in base ten, and a text that holds anything but digits is
/// none.
pub proof fn numbers_read_in_base_ten(s: Seq<char>, c: char)
    requires
        '0' <= c && c <= '9',
    ensures
        digits_value(s.push(c)) == 10 * digits_value(s) + (c as u32 - 48),
        digits_value(Seq::empty()) == 0,
        all_digits(s) <==> s.len() > 0 && forall|i: int|
            0 <= i < s.len() ==> '0' <= #[trigger] s[i] && s[i] <= '9',
{
    assert(s.push(c).drop_last() =~= s);
    if all_digits(s) {
        assert forall|i: int| 0 <= i < s.len() implies '0' <= #[trigger] s[i] && s[i] <= '9' by {
            assert(is_digit(s[i]));
        }
    }
}

/// A number is written without leading zeros.
pub proof fn numbers_are_written_without_leading_zeros(n: nat)
    ensures
        decimal(n).len() > 0,
        n > 0 ==> decimal(n)[0] != '0',
        n == 0 ==> decimal(n) == seq!['0'],
    decreases n,
{
    if n >= 10 {
        numbers_are_written_without_leading_zeros(n / 10);
    }
}

/// The cases of the script's level enum: each names its level, a call without
/// one informs, and a case that is not known is an error.
pub proof fn a_case_names_its_level(c: Seq<u8>)
    ensures
        case_level(None) == Level::Info,
        case_level(Some(encode_utf8("Warning"@))) == Level::Warn,
        case_level(Some(encode_utf8("Info"@))) == Level::Info,
        case_level(Some(encode_utf8("Debug"@))) == Level::Debug,
        case_level(Some(encode_utf8("Trace"@))) == Level::Trace,
        c == encode_utf8("Warning"@) || c == encode_utf8("Info"@) || c == encode_utf8("Debug"@) || c
            == encode_utf8("Trace"@) || case_level(Some(c)) == Level::Error,
{
    reveal_strlit("Warning");
    reveal_strlit("Info");
    reveal_strlit("Debug");
    reveal_strlit("Trace");
    encode_utf8_decode_utf8("Warning"@);
    encode_utf8_decode_utf8("Info"@);
    encode_utf8_decode_utf8("Debug"@);
    encode_utf8_decode_utf8("Trace"@);
    assert("Debug"@[0] != "Trace"@[0]);
}

/// A request that the resident loop handled counts once, as failed where its
/// handler bailed or threw; a bailout counts a recycle too. The cycle has served,
/// and the unit machine is left alone.
pub proof fn a_handled_request_counts_once(d: DeskView, run: HandlerRun)
    requires
        d.board.slot is Some,
    ensures
        ({
            let after = handled_desk(d, run);
            let s = d.board.slot->0;
            let one = |n: u64|
                if n == u64::MAX {
                    0u64
                } else {
                    (n + 1) as u64
                };
            &&& after.cycle.served && after.cycle.unit == d.cycle.unit && after.cycle.closed_seen
                == d.cycle.closed_seen && after.cycle.received == d.cycle.received
            &&& after.board.slot matches Some(t) && {
                &&& t.handled == one(s.handled)
                &&& run.failed() ==> t.errors == one(s.errors)
                &&& !run.failed() ==> t.errors == s.errors
                &&& run.recycles() ==> t.recycles == one(s.recycles)
                &&& !run.recycles() ==> t.recycles == s.recycles
                &&& t.restarts == s.restarts && t.unhealthy == s.unhealthy && t.pid == s.pid
            }
        }),
{
}

/// A pool's totals grow by exactly the counters of each worker, and are zero
/// without one.
pub proof fn a_pool_sums_up_its_workers(
    before: ScoreboardSnapshot,
    after: ScoreboardSnapshot,
    workers: Seq<WorkerStatSnapshot>,
    w: WorkerStatSnapshot,
)
    requires
        sums_up(before, workers),
        sums_up(after, workers.push(w)),
    ensures
        after.workers@ == before.workers@.push(w),
        after.handled == before.handled + w.handled,
        after.errors == before.errors + w.errors,
        after.recycles == before.recycles + w.recycles,
        after.restarts == before.restarts + w.restarts,
        after.unhealthy == before.unhealthy + (if w.unhealthy {
            1int
        } else {
            0int
        }),
        workers.len() == 0 ==> before.handled == 0 && before.errors == 0 && before.recycles == 0
            && before.restarts == 0 && before.unhealthy == 0,
{
    lemma_total_push(workers, w, handled_of());
    lemma_total_push(workers, w, errors_of());
    lemma_total_push(workers, w, recycles_of());
    lemma_total_push(workers, w, restarts_of());
    lemma_total_push(workers, w, unhealthy_of());
}

/// The counters that a pool reports of a worker are those of its slot.
pub proof fn a_worker_is_reported_by_its_slot(id: usize, s: SharedSlot)
    ensures
        ({
            let w = counters(reading(id as int, s));
            &&& w.id == id && w.handled == s.handled && w.errors == s.errors
            &&& w.recycles == s.recycles && w.restarts == s.restarts
            &&& w.unhealthy <==> s.unhealthy != 0
        }),
{
}

} // verus!
