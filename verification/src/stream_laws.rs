//! What a whole run of verbs puts on the stream when the reader stays: a
//! declared content-length is met to the byte, and a HEAD response is that of
//! the GET without its body.

use vstd::prelude::*;
use crate::channel::Offered;
use crate::cycle::DeskView;
use crate::frames::{body_frame, body_len, lemma_start, payload, FrameView};
use crate::reply::joined;
use crate::respond::{
    body_planned, concluded, concluding_desk, due, fitting, head_frame, headed, heard, rank,
    resting, sound, worked_off, PlanView, ProgressView, RespondView, Stage, Verb, MAX_BUFFERED_BODY,
};
use crate::respond_laws::{
    a_slow_reader_loses_nothing, called, countable, delivery_keeps_the_books, ends_by_worker,
    lemma_called, owed_end, writing_a_body_keeps_the_books, Call,
};
use crate::seqs::lemma_total_push;
use crate::spool::live_paths;

verus! {

/// Working off a verb in as many rounds as it takes; each round has the answers
/// that the channel gives in it.
pub open spec fn worked_through<F>(
    r: RespondView<F>,
    d: DeskView,
    rounds: Seq<Seq<Offered>>,
) -> (RespondView<F>, DeskView, ProgressView)
    decreases rounds.len(),
{
    if rounds.len() == 0 {
        (r, d, ProgressView::Full)
    } else {
        let (after, desk, p) = worked_off(r, d, rounds[0]);
        if p is Done {
            (after, desk, p)
        } else {
            worked_through(after, desk, rounds.drop_first())
        }
    }
}

/// The reader stays: no offer finds the channel closed.
pub open spec fn reader_stays(rounds: Seq<Seq<Offered>>) -> bool {
    forall|i: int, k: int|
        0 <= i < rounds.len() && 0 <= k < rounds[i].len() ==> #[trigger] rounds[i][k]
            != Offered::Closed
}

/// What a planned verb answers once it is through, if the reader stays.
pub open spec fn planned_verb<F>(r: RespondView<F>) -> Verb {
    match r.plan {
        PlanView::Run { verb, .. } => verb,
        PlanView::Farewell { verb, .. } => verb,
        PlanView::Rest => Verb::Accepted,
    }
}

/// The stage that a planned verb leaves behind, if the reader stays.
pub open spec fn planned_stage<F>(r: RespondView<F>) -> Stage {
    if r.plan matches PlanView::Run { ending, .. } && ending is Some {
        Stage::Finalized
    } else {
        r.stage
    }
}

/// Delivery to a reader that stays changes nothing that the verb planned.
proof fn lemma_delivery_keeps_the_plan<F>(r: RespondView<F>, d: DeskView, answers: Seq<Offered>)
    requires
        ends_by_worker(r),
        forall|i: int| 0 <= i < answers.len() ==> answers[i] != Offered::Closed,
    ensures
        ({
            let (after, _, p) = worked_off(r, d, answers);
            &&& after.declared_cl == r.declared_cl
            &&& after.sent_body == r.sent_body
            &&& after.bodiless == r.bodiless
            &&& after.head_sent == r.head_sent
            &&& after.pending == r.pending
            &&& after.discarded == r.discarded
            &&& planned_stage(after) == planned_stage(r)
            &&& p matches ProgressView::Done(v) ==> v == planned_verb(r)
            &&& !(p is Done) ==> planned_verb(after) == planned_verb(r)
        }),
    decreases rank(r),
{
    if due(r) is Some {
        if answers.len() > 0 && r.outbox.len() > 0 && answers[0] != Offered::Full {
            lemma_delivery_keeps_the_plan(heard(r, answers[0]), d, answers.drop_first());
        }
    } else {
        match r.plan {
            PlanView::Run { ending: Some(_), .. } => {
                if live_paths(r.spools).len() == 0 {
                    lemma_delivery_keeps_the_plan(concluded(r), concluding_desk(r, d), answers);
                }
            },
            _ => {},
        }
    }
}

/// A verb that is through has put everything it planned on the stream, and left
/// the unit as it planned.
pub proof fn lemma_through<F>(r: RespondView<F>, d: DeskView, rounds: Seq<Seq<Offered>>)
    requires
        sound(r),
        ends_by_worker(r),
        reader_stays(rounds),
        worked_through(r, d, rounds).2 is Done,
    ensures
        ({
            let (after, _, p) = worked_through(r, d, rounds);
            &&& sound(after)
            &&& resting(after)
            &&& after.sent == r.sent + r.outbox + owed_end(r)
            &&& after.declared_cl == r.declared_cl
            &&& after.sent_body == r.sent_body
            &&& after.bodiless == r.bodiless
            &&& after.head_sent == r.head_sent
            &&& after.pending == r.pending
            &&& after.discarded == r.discarded
            &&& after.stage == planned_stage(r)
            &&& p == ProgressView::Done(planned_verb(r))
        }),
    decreases rounds.len(),
{
    if rounds.len() > 0 {
        assert forall|k: int| 0 <= k < rounds[0].len() implies rounds[0][k] != Offered::Closed by {}
        let (after, desk, p) = worked_off(r, d, rounds[0]);
        delivery_keeps_the_books(r, d, rounds[0]);
        a_slow_reader_loses_nothing(r, d, rounds[0]);
        lemma_delivery_keeps_the_plan(r, d, rounds[0]);
        if !(p is Done) {
            let rest = rounds.drop_first();
            assert forall|i: int, k: int|
                0 <= i < rest.len() && 0 <= k < rest[i].len() implies #[trigger] rest[i][k]
                != Offered::Closed by {
                assert(rounds[i + 1][k] != Offered::Closed);
            }
            lemma_through(after, desk, rest);
        }
    }
}

/// A body write without `eos`, and the answers to it.
pub struct Write {
    pub data: Seq<u8>,
    pub rounds: Seq<Seq<Offered>>,
}

/// What one write comes to.
#[verifier::opaque]
pub open spec fn wrote<F>(r: RespondView<F>, d: DeskView, w: Write) -> (
    RespondView<F>,
    DeskView,
    ProgressView,
) {
    worked_through(body_planned(r, false, w.data, false), d, w.rounds)
}

/// A unit after a run of writes.
pub open spec fn after_writes<F>(r: RespondView<F>, d: DeskView, ws: Seq<Write>) -> (
    RespondView<F>,
    DeskView,
)
    decreases ws.len(),
{
    if ws.len() == 0 {
        (r, d)
    } else {
        let (before, desk) = after_writes(r, d, ws.drop_last());
        let (after, desk, _) = wrote(before, desk, ws.last());
        (after, desk)
    }
}

/// What write `i` of a run comes to.
pub open spec fn answer_to<F>(
    r: RespondView<F>,
    d: DeskView,
    ws: Seq<Write>,
    i: int,
) -> ProgressView {
    let (before, desk) = after_writes(r, d, ws.take(i));
    wrote(before, desk, ws[i]).2
}

/// Every write of a run is within the host's cap and worked off to a reader that
/// stays.
#[verifier::opaque]
pub open spec fn run_of_writes<F>(r: RespondView<F>, d: DeskView, ws: Seq<Write>) -> bool {
    forall|i: int|
        0 <= i < ws.len() ==> {
            &&& (#[trigger] ws[i]).data.len() <= MAX_BUFFERED_BODY
            &&& reader_stays(ws[i].rounds)
            &&& answer_to(r, d, ws, i) is Done
        }
}

/// The bytes of a run of writes, one write after the other.
pub open spec fn written_bytes(ws: Seq<Write>) -> Seq<u8>
    decreases ws.len(),
{
    if ws.len() == 0 {
        Seq::empty()
    } else {
        written_bytes(ws.drop_last()) + ws.last().data
    }
}

/// The chunks of two streams, one after the other.
proof fn lemma_joined_add<F>(a: Seq<FrameView<F>>, b: Seq<FrameView<F>>)
    ensures
        joined(a + b) == joined(a) + joined(b),
    decreases b.len(),
{
    if b.len() == 0 {
        assert(a + b =~= a);
        assert(joined(a) + joined(b) =~= joined(a));
    } else {
        assert((a + b).drop_last() =~= a + b.drop_last());
        lemma_joined_add(a, b.drop_last());
        match b.last() {
            FrameView::Chunk(c) => {
                assert(joined(a) + joined(b.drop_last()) + c =~= joined(a) + (joined(b.drop_last())
                    + c));
            },
            _ => {},
        }
    }
}

/// The chunks of a stream with one more frame.
proof fn lemma_joined_push<F>(s: Seq<FrameView<F>>, f: FrameView<F>)
    ensures
        joined(s.push(f)) == match f {
            FrameView::Chunk(b) => joined(s) + b,
            _ => joined(s),
        },
{
    assert(s.push(f).drop_last() =~= s);
}

/// What a write is told when the total so far goes from `before` to `after`.
pub open spec fn called_for(cl: u64, before: nat, after: nat) -> Verb {
    if before > cl {
        Verb::Finalized
    } else if after > cl {
        Verb::ContentLengthExceeded
    } else {
        Verb::Accepted
    }
}

/// The state of a unit with a declared length of `cl` after `bytes` were
/// written.
#[verifier::opaque]
spec fn on_course<F>(r: RespondView<F>, cl: u64, start: Seq<u8>, bytes: Seq<u8>) -> bool {
    &&& sound(r)
    &&& resting(r)
    &&& r.declared_cl == Some(cl)
    &&& !r.bodiless
    &&& !r.discarded
    &&& if bytes.len() <= cl {
        &&& r.stage == Stage::HeadCommitted
        &&& r.sent_body == bytes.len()
        &&& joined(r.sent) == start + bytes
    } else {
        &&& r.stage == Stage::Finalized
        &&& r.sent_body == cl
        &&& joined(r.sent) == start + bytes.take(cl as int)
    }
}

/// One write keeps a unit on course, and its answer is the one that the declared
/// length calls for.
proof fn lemma_one_write<F>(
    r: RespondView<F>,
    d: DeskView,
    cl: u64,
    start: Seq<u8>,
    bytes: Seq<u8>,
    w: Write,
)
    requires
        on_course(r, cl, start, bytes),
        w.data.len() <= MAX_BUFFERED_BODY,
        reader_stays(w.rounds),
        wrote(r, d, w).2 is Done,
    ensures
        ({
            let (after, _, p) = wrote(r, d, w);
            &&& on_course(after, cl, start, bytes + w.data)
            &&& p == ProgressView::Done(
                called_for(cl, bytes.len(), (bytes + w.data).len()),
            )
        }),
{
    reveal(on_course);
    reveal(wrote);
    let planned = body_planned(r, false, w.data, false);
    let more = bytes + w.data;
    writing_a_body_keeps_the_books(r, false, w.data, false);
    lemma_through(planned, d, w.rounds);
    let (after, _, p) = worked_through(planned, d, w.rounds);
    let none = Seq::<FrameView<F>>::empty();
    assert(r.outbox =~= none);
    lemma_joined_add(r.sent, planned.outbox);
    lemma_joined_add(r.sent + planned.outbox, owed_end(planned));
    if bytes.len() > cl {
        assert(after.sent =~= r.sent);
        assert(more.take(cl as int) =~= bytes.take(cl as int));
    } else if w.data.len() == 0 {
        assert(after.sent =~= r.sent);
        assert(more =~= bytes);
    } else {
        let f = FrameView::<F>::Chunk(w.data);
        let h = headed(r, if bytes.len() + w.data.len() > cl {
            Some(cl)
        } else {
            None
        });
        assert(joined(h.outbox) =~= Seq::empty()) by {
            lemma_joined_push(none, head_frame(r, if bytes.len() + w.data.len() > cl {
                Some(cl)
            } else {
                None
            }));
        }
        if bytes.len() + w.data.len() > cl {
            let fit = (cl - bytes.len()) as nat;
            let part = w.data.take(fit as int);
            lemma_joined_push(h.outbox, fitting(f, fit));
            lemma_joined_push(none, owed_end(planned)[0]);
            assert(owed_end(planned) =~= none.push(owed_end(planned)[0]));
            assert(joined(planned.outbox) =~= part);
            assert(start + bytes + part =~= start + more.take(cl as int));
            assert(joined(after.sent) =~= start + more.take(cl as int));
        } else {
            lemma_joined_push(h.outbox, f);
            assert(joined(planned.outbox) =~= w.data);
            assert(joined(after.sent) =~= start + more);
        }
    }
}

/// A run without its last write is a run.
proof fn lemma_run_prefix<F>(r: RespondView<F>, d: DeskView, ws: Seq<Write>)
    requires
        run_of_writes(r, d, ws),
        ws.len() > 0,
    ensures
        run_of_writes(r, d, ws.drop_last()),
        ({
            let (before, desk) = after_writes(r, d, ws.drop_last());
            &&& ws.last().data.len() <= MAX_BUFFERED_BODY
            &&& reader_stays(ws.last().rounds)
            &&& wrote(before, desk, ws.last()).2 is Done
            &&& answer_to(r, d, ws, ws.len() - 1) == wrote(before, desk, ws.last()).2
        }),
        forall|i: int|
            0 <= i < ws.len() - 1 ==> #[trigger] answer_to(r, d, ws, i) == answer_to(
                r,
                d,
                ws.drop_last(),
                i,
            ),
{
    reveal(run_of_writes);
    let init = ws.drop_last();
    let n = ws.len() - 1;
    assert(init =~= ws.take(n));
    assert(ws[n] == ws.last());
    assert(answer_to(r, d, ws, n) is Done);
    assert forall|i: int| 0 <= i < init.len() implies {
        &&& (#[trigger] init[i]).data.len() <= MAX_BUFFERED_BODY
        &&& reader_stays(init[i].rounds)
        &&& answer_to(r, d, init, i) is Done
    } by {
        assert(init[i] == ws[i]);
        assert(init.take(i) =~= ws.take(i));
        assert(answer_to(r, d, ws, i) is Done);
    }
    assert forall|i: int| 0 <= i < n implies #[trigger] answer_to(r, d, ws, i) == answer_to(
        r,
        d,
        init,
        i,
    ) by {
        assert(init[i] == ws[i]);
        assert(init.take(i) =~= ws.take(i));
    }
}

/// The verb that write `i` of a run is to be told.
pub open spec fn owed_verb(cl: u64, ws: Seq<Write>, i: int) -> Verb {
    called_for(cl, written_bytes(ws.take(i)).len(), written_bytes(ws.take(i + 1)).len())
}

/// A run of writes keeps a unit on course.
proof fn lemma_run_stays_on_course<F>(
    r: RespondView<F>,
    d: DeskView,
    cl: u64,
    start: Seq<u8>,
    ws: Seq<Write>,
)
    requires
        on_course(r, cl, start, Seq::empty()),
        run_of_writes(r, d, ws),
    ensures
        on_course(after_writes(r, d, ws).0, cl, start, written_bytes(ws)),
        forall|i: int|
            0 <= i < ws.len() ==> #[trigger] answer_to(r, d, ws, i) == ProgressView::Done(
                owed_verb(cl, ws, i),
            ),
    decreases ws.len(),
{
    if ws.len() > 0 {
        let init = ws.drop_last();
        let n = ws.len() - 1;
        lemma_run_prefix(r, d, ws);
        lemma_run_stays_on_course(r, d, cl, start, init);
        let (before, desk) = after_writes(r, d, init);
        lemma_one_write(before, desk, cl, start, written_bytes(init), ws.last());
        assert forall|i: int| 0 <= i < ws.len() implies #[trigger] answer_to(r, d, ws, i)
            == ProgressView::Done(owed_verb(cl, ws, i)) by {
            if i < n {
                assert(init.take(i) =~= ws.take(i));
                assert(init.take(i + 1) =~= ws.take(i + 1));
                assert(answer_to(r, d, init, i) == ProgressView::Done(owed_verb(cl, init, i)));
            } else {
                assert(ws.take(n) =~= init);
                assert(ws.take(n + 1) =~= ws);
            }
        }
    }
}

/// A declared content-length is met to the byte. Over a run of writes to a
/// reader that stays, the chunks on the stream are the first `cl` bytes of what
/// was written, or all of it where it is less; a write is accepted as long as
/// the running total stays within `cl`, the first that goes past it is told so,
/// and every later one finds the response over.
pub proof fn a_declared_length_is_met_to_the_byte<F>(
    r: RespondView<F>,
    d: DeskView,
    cl: u64,
    ws: Seq<Write>,
)
    requires
        sound(r),
        resting(r),
        r.stage == Stage::HeadCommitted,
        r.sent_body == 0,
        !r.bodiless,
        r.declared_cl == Some(cl),
        run_of_writes(r, d, ws),
    ensures
        ({
            let after = after_writes(r, d, ws).0;
            let all = written_bytes(ws);
            &&& joined(after.sent) == if all.len() <= cl {
                all
            } else {
                all.take(cl as int)
            }
            &&& after.sent_body <= cl
            &&& after.stage == Stage::Finalized <==> all.len() > cl
        }),
        forall|i: int|
            0 <= i < ws.len() ==> #[trigger] answer_to(r, d, ws, i) == ProgressView::Done(
                owed_verb(cl, ws, i),
            ),
{
    reveal(on_course);
    assert(r.sent + r.outbox =~= r.sent);
    lemma_chunks_are_body(r.sent);
    let none = Seq::<u8>::empty();
    assert(joined(r.sent) =~= none + none);
    lemma_run_stays_on_course(r, d, cl, none, ws);
    let all = written_bytes(ws);
    assert(none + all =~= all);
    assert(none + all.take(cl as int) =~= all.take(cl as int));
}

/// The chunks of a stream hold no more bytes than its body.
proof fn lemma_chunks_are_body<F>(s: Seq<FrameView<F>>)
    ensures
        joined(s).len() <= body_len(s),
    decreases s.len(),
{
    if s.len() > 0 {
        lemma_chunks_are_body(s.drop_last());
        lemma_total_push(s.drop_last(), s.last(), payload::<F>());
        assert(s.drop_last().push(s.last()) =~= s);
    }
}

/// A call on a unit, and the answers to it.
pub struct Step<F> {
    pub call: Call<F>,
    pub rounds: Seq<Seq<Offered>>,
}

/// The channel was open when a call began.
pub open spec fn finds_reader<F>(c: Call<F>) -> bool {
    match c {
        Call::Head { closed, .. } => !closed,
        Call::Body { closed, .. } => !closed,
        Call::File { closed, .. } => !closed,
        Call::Trailers { closed, .. } => !closed,
        Call::Flush { closed } => !closed,
        Call::Resume => true,
    }
}

/// What one call comes to.
#[verifier::opaque]
pub open spec fn stepped<F>(r: RespondView<F>, d: DeskView, s: Step<F>) -> (
    RespondView<F>,
    DeskView,
    ProgressView,
) {
    worked_through(called(r, s.call), d, s.rounds)
}

/// A unit after a run of calls.
pub open spec fn after_steps<F>(r: RespondView<F>, d: DeskView, steps: Seq<Step<F>>) -> (
    RespondView<F>,
    DeskView,
)
    decreases steps.len(),
{
    if steps.len() == 0 {
        (r, d)
    } else {
        let (before, desk) = after_steps(r, d, steps.drop_last());
        let (after, desk, _) = stepped(before, desk, steps.last());
        (after, desk)
    }
}

/// What call `i` of a run comes to.
pub open spec fn outcome_of<F>(
    r: RespondView<F>,
    d: DeskView,
    steps: Seq<Step<F>>,
    i: int,
) -> ProgressView {
    let (before, desk) = after_steps(r, d, steps.take(i));
    stepped(before, desk, steps[i]).2
}

/// Every call of a run is countable and worked off to a reader that stays.
#[verifier::opaque]
pub open spec fn run_of_calls<F>(r: RespondView<F>, d: DeskView, steps: Seq<Step<F>>) -> bool {
    forall|i: int|
        0 <= i < steps.len() ==> {
            &&& finds_reader((#[trigger] steps[i]).call)
            &&& countable(after_steps(r, d, steps.take(i)).0, steps[i].call)
            &&& reader_stays(steps[i].rounds)
            &&& outcome_of(r, d, steps, i) is Done
        }
}

/// A run without its last call is a run.
pub proof fn lemma_calls_prefix<F>(r: RespondView<F>, d: DeskView, steps: Seq<Step<F>>)
    requires
        run_of_calls(r, d, steps),
        steps.len() > 0,
    ensures
        run_of_calls(r, d, steps.drop_last()),
        ({
            let (before, desk) = after_steps(r, d, steps.drop_last());
            &&& finds_reader(steps.last().call)
            &&& countable(before, steps.last().call)
            &&& reader_stays(steps.last().rounds)
            &&& stepped(before, desk, steps.last()).2 is Done
            &&& outcome_of(r, d, steps, steps.len() - 1) == stepped(
                before,
                desk,
                steps.last(),
            ).2
        }),
        forall|i: int|
            0 <= i < steps.len() - 1 ==> #[trigger] outcome_of(r, d, steps, i) == outcome_of(
                r,
                d,
                steps.drop_last(),
                i,
            ),
{
    reveal(run_of_calls);
    let init = steps.drop_last();
    let n = steps.len() - 1;
    assert(init =~= steps.take(n));
    assert(steps[n] == steps.last());
    assert(outcome_of(r, d, steps, n) is Done);
    assert forall|i: int| 0 <= i < init.len() implies {
        &&& finds_reader((#[trigger] init[i]).call)
        &&& countable(after_steps(r, d, init.take(i)).0, init[i].call)
        &&& reader_stays(init[i].rounds)
        &&& outcome_of(r, d, init, i) is Done
    } by {
        assert(init[i] == steps[i]);
        assert(init.take(i) =~= steps.take(i));
        assert(outcome_of(r, d, steps, i) is Done);
    }
    assert forall|i: int| 0 <= i < n implies #[trigger] outcome_of(r, d, steps, i) == outcome_of(
        r,
        d,
        init,
        i,
    ) by {
        assert(init[i] == steps[i]);
        assert(init.take(i) =~= steps.take(i));
    }
}

/// The heads on a stream state the length that the unit declared, if it did, and
/// no other.
pub open spec fn heads_as_declared<F>(r: RespondView<F>) -> bool {
    forall|k: int|
        0 <= k < r.sent.len() ==> (#[trigger] r.sent[k] matches FrameView::Head {
            content_length,
            bodiless,
            ..
        } ==> content_length == r.declared_cl && bodiless)
}

/// Unit `h` answers a HEAD as unit `g` answers the GET: the same in everything
/// that a verb decides by, and `h` has no body.
pub open spec fn twins<F>(g: RespondView<F>, h: RespondView<F>) -> bool {
    &&& sound(g)
    &&& sound(h)
    &&& resting(g)
    &&& resting(h)
    &&& g.stage == h.stage
    &&& g.head_sent == h.head_sent
    &&& g.pending == h.pending
    &&& g.declared_cl == h.declared_cl
    &&& g.sent_body == h.sent_body
    &&& !g.discarded
    &&& !h.discarded
    &&& h.bodiless
    &&& heads_as_declared(h)
}

/// What a call plans for a twin: the same, but for the frames.
proof fn lemma_twins_plan_alike<F>(g: RespondView<F>, h: RespondView<F>, c: Call<F>)
    requires
        twins(g, h),
        finds_reader(c),
        countable(g, c),
    ensures
        ({
            let x = called(g, c);
            let y = called(h, c);
            &&& planned_verb(x) == planned_verb(y)
            &&& planned_stage(x) == planned_stage(y)
            &&& x.head_sent == y.head_sent
            &&& x.pending == y.pending
            &&& x.declared_cl == y.declared_cl
            &&& x.sent_body == y.sent_body
            &&& !x.discarded
            &&& !y.discarded
            &&& y.bodiless
            &&& ends_by_worker(x)
            &&& ends_by_worker(y)
        }),
{
}

/// The frames that a call plans for a bodiless unit keep its heads as declared.
proof fn lemma_heads_stay_as_declared<F>(h: RespondView<F>, c: Call<F>)
    requires
        sound(h),
        resting(h),
        h.bodiless,
        heads_as_declared(h),
        countable(h, c),
    ensures
        ({
            let y = called(h, c);
            let stream = y.sent + y.outbox + owed_end(y);
            forall|k: int|
                0 <= k < stream.len() ==> (#[trigger] stream[k] matches FrameView::Head {
                    content_length,
                    bodiless,
                    ..
                } ==> content_length == y.declared_cl && bodiless)
        }),
{
    let y = called(h, c);
    let stream = y.sent + y.outbox + owed_end(y);
    assert(h.outbox =~= Seq::empty());
    assert(h.sent + h.outbox =~= h.sent);
    assert(y.sent == h.sent);
    if h.stage == Stage::Open {
        lemma_start(h.sent);
    }
    assert(y.outbox.len() <= 1);
    assert forall|k: int| 0 <= k < stream.len() implies (#[trigger] stream[k] matches FrameView::Head {
        content_length,
        bodiless,
        ..
    } ==> content_length == y.declared_cl && bodiless) by {
        if k < h.sent.len() {
            assert(stream[k] == h.sent[k]);
        } else if k < h.sent.len() + y.outbox.len() {
            assert(stream[k] == y.outbox[k - h.sent.len()]);
        } else {
            assert(stream[k] == owed_end(y)[k - h.sent.len() - y.outbox.len()]);
        }
    }
}

/// One call on twins is answered alike and leaves twins.
proof fn lemma_one_call_on_twins<F>(
    g: RespondView<F>,
    dg: DeskView,
    sg: Step<F>,
    h: RespondView<F>,
    dh: DeskView,
    sh: Step<F>,
)
    requires
        twins(g, h),
        sg.call == sh.call,
        finds_reader(sg.call),
        countable(g, sg.call),
        reader_stays(sg.rounds),
        reader_stays(sh.rounds),
        stepped(g, dg, sg).2 is Done,
        stepped(h, dh, sh).2 is Done,
    ensures
        stepped(g, dg, sg).2 == stepped(h, dh, sh).2,
        twins(stepped(g, dg, sg).0, stepped(h, dh, sh).0),
{
    reveal(stepped);
    let c = sg.call;
    let x = called(g, c);
    let y = called(h, c);
    lemma_called(g, c);
    lemma_called(h, c);
    lemma_twins_plan_alike(g, h, c);
    lemma_heads_stay_as_declared(h, c);
    lemma_through(x, dg, sg.rounds);
    lemma_through(y, dh, sh.rounds);
}

/// A HEAD response is that of the GET without its body: on a unit for each, the
/// same run of calls is answered alike call by call; the HEAD stream has no body
/// frame, and its head states the declared content-length or none, never one
/// that was computed.
pub proof fn a_head_response_is_the_get_without_a_body<F>(
    g: RespondView<F>,
    dg: DeskView,
    for_get: Seq<Step<F>>,
    h: RespondView<F>,
    dh: DeskView,
    for_head: Seq<Step<F>>,
)
    requires
        twins(g, h),
        for_get.len() == for_head.len(),
        forall|i: int|
            0 <= i < for_get.len() ==> (#[trigger] for_get[i]).call == for_head[i].call,
        run_of_calls(g, dg, for_get),
        run_of_calls(h, dh, for_head),
    ensures
        forall|i: int|
            0 <= i < for_get.len() ==> #[trigger] outcome_of(g, dg, for_get, i) == outcome_of(
                h,
                dh,
                for_head,
                i,
            ),
        twins(after_steps(g, dg, for_get).0, after_steps(h, dh, for_head).0),
        ({
            let after = after_steps(h, dh, for_head).0;
            &&& heads_as_declared(after)
            &&& forall|k: int| 0 <= k < after.sent.len() ==> !body_frame(#[trigger] after.sent[k])
        }),
    decreases for_get.len(),
{
    if for_get.len() > 0 {
        let n = for_get.len() - 1;
        let ig = for_get.drop_last();
        let ih = for_head.drop_last();
        lemma_calls_prefix(g, dg, for_get);
        lemma_calls_prefix(h, dh, for_head);
        assert forall|i: int| 0 <= i < ig.len() implies (#[trigger] ig[i]).call == ih[i].call by {
            assert(ig[i] == for_get[i]);
        }
        a_head_response_is_the_get_without_a_body(g, dg, ig, h, dh, ih);
        let (bg, eg) = after_steps(g, dg, ig);
        let (bh, eh) = after_steps(h, dh, ih);
        assert(for_get[n].call == for_head[n].call);
        lemma_one_call_on_twins(bg, eg, for_get.last(), bh, eh, for_head.last());
        assert forall|i: int| 0 <= i < for_get.len() implies #[trigger] outcome_of(
            g,
            dg,
            for_get,
            i,
        ) == outcome_of(h, dh, for_head, i) by {
            if i < n {
                assert(outcome_of(g, dg, ig, i) == outcome_of(h, dh, ih, i));
            }
        }
    }
    let after = after_steps(h, dh, for_head).0;
    assert forall|k: int| 0 <= k < after.sent.len() implies !body_frame(
        #[trigger] after.sent[k],
    ) by {
        assert((after.sent + after.outbox)[k] == after.sent[k]);
    }
}

/// A unit that takes a body of any length.
#[verifier::opaque]
pub open spec fn flowing<F>(r: RespondView<F>) -> bool {
    &&& sound(r)
    &&& resting(r)
    &&& r.stage != Stage::Finalized
    &&& !r.bodiless
    &&& r.declared_cl is None
}

/// One write to a unit that takes any length.
proof fn lemma_one_free_write<F>(r: RespondView<F>, d: DeskView, w: Write)
    requires
        flowing(r),
        r.sent_body + w.data.len() <= u64::MAX,
        w.data.len() <= MAX_BUFFERED_BODY,
        reader_stays(w.rounds),
        wrote(r, d, w).2 is Done,
    ensures
        ({
            let (after, _, p) = wrote(r, d, w);
            &&& flowing(after)
            &&& after.sent_body == r.sent_body + w.data.len()
            &&& joined(after.sent) == joined(r.sent) + w.data
            &&& p == ProgressView::Done(Verb::Accepted)
        }),
{
    reveal(flowing);
    reveal(wrote);
    let planned = body_planned(r, false, w.data, false);
    writing_a_body_keeps_the_books(r, false, w.data, false);
    lemma_through(planned, d, w.rounds);
    let (after, _, p) = worked_through(planned, d, w.rounds);
    let none = Seq::<FrameView<F>>::empty();
    assert(r.outbox =~= none);
    assert(owed_end(planned) =~= none);
    assert(after.sent =~= r.sent + planned.outbox);
    lemma_joined_add(r.sent, planned.outbox);
    if w.data.len() == 0 {
        assert(planned.outbox =~= none);
        assert(joined(r.sent) + w.data =~= joined(r.sent));
        assert(after.sent =~= r.sent);
    } else {
        let h = headed(r, None);
        lemma_joined_push(none, head_frame(r, None));
        assert(joined(h.outbox) =~= Seq::empty());
        lemma_joined_push(h.outbox, FrameView::<F>::Chunk(w.data));
        assert(joined(planned.outbox) =~= w.data);
    }
}

/// Without a declared length every byte that is written goes out, once and in
/// order, over any run of writes to a reader that stays; every write is
/// accepted.
pub proof fn every_written_byte_goes_out<F>(r: RespondView<F>, d: DeskView, ws: Seq<Write>)
    requires
        flowing(r),
        r.sent_body + written_bytes(ws).len() <= u64::MAX,
        run_of_writes(r, d, ws),
    ensures
        flowing(after_writes(r, d, ws).0),
        joined(after_writes(r, d, ws).0.sent) == joined(r.sent) + written_bytes(ws),
        after_writes(r, d, ws).0.sent_body == r.sent_body + written_bytes(ws).len(),
        forall|i: int|
            0 <= i < ws.len() ==> #[trigger] answer_to(r, d, ws, i) == ProgressView::Done(
                Verb::Accepted,
            ),
    decreases ws.len(),
{
    if ws.len() > 0 {
        let init = ws.drop_last();
        let n = ws.len() - 1;
        lemma_run_prefix(r, d, ws);
        every_written_byte_goes_out(r, d, init);
        let (before, desk) = after_writes(r, d, init);
        lemma_one_free_write(before, desk, ws.last());
        assert(joined(r.sent) + written_bytes(init) + ws.last().data =~= joined(r.sent)
            + written_bytes(ws));
        assert forall|i: int| 0 <= i < ws.len() implies #[trigger] answer_to(r, d, ws, i)
            == ProgressView::Done(Verb::Accepted) by {
            if i < n {
                assert(answer_to(r, d, init, i) == ProgressView::Done(Verb::Accepted));
            }
        }
    } else {
        assert(joined(r.sent) + written_bytes(ws) =~= joined(r.sent));
    }
}

} // verus!
