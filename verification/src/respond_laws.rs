//! What holds of every response, whatever the worker writes and whatever the
//! channel answers.

use vstd::prelude::*;
use crate::channel::Offered;
use crate::cycle::{concluded_desk, counted, DeskView};
use crate::fields::Line;
use crate::frames::{
    body_frame, body_len, framing_kept, lemma_framing_prefix, lemma_phase_prefix, lemma_phase_push,
    lemma_start, payload, phase, well_formed, FrameView, Phase,
};
use crate::respond::{
    answered, body_planned, body_written, concluded, concluding_desk, cut_short, cuts, due, ended,
    file_planned, fitting, flush_planned, head_frame, head_frames_agree, head_planned, headed,
    heard, logged, looked, parted, rank, resting, room_for, running, settled, sound,
    trailers_planned, with_body, worked_off, EndingView, PlanView, ProgressView, RespondView, Stage,
    Verb, MAX_BUFFERED_BODY,
};
use crate::sendfile::FileFault;
use crate::seqs::lemma_total_push;
use crate::spool::live_paths;

verus! {

/// What one more frame does to a stream.
proof fn lemma_stream_push<F>(r: RespondView<F>, f: FrameView<F>)
    ensures
        r.sent + r.outbox.push(f) == (r.sent + r.outbox).push(f),
        phase(r.sent + r.outbox.push(f)) == crate::frames::after(phase(r.sent + r.outbox), f),
        body_len(r.sent + r.outbox.push(f)) == body_len(r.sent + r.outbox) + payload::<F>()(f),
{
    assert(r.sent + r.outbox.push(f) =~= (r.sent + r.outbox).push(f));
    lemma_phase_push(r.sent + r.outbox, f);
    lemma_total_push(r.sent + r.outbox, f, payload::<F>());
}

/// A verb that changes nothing but its outcome keeps the books.
proof fn lemma_answered_sound<F>(r: RespondView<F>, verb: Verb)
    requires
        sound(r),
        resting(r),
    ensures
        sound(answered(r, verb)),
        sound(cut_short(r)),
{
}

/// Sending the head keeps the books, but for what is still owed.
proof fn lemma_headed<F>(r: RespondView<F>, computed: Option<u64>)
    requires
        sound(r),
        resting(r),
        r.stage != Stage::Finalized,
    ensures
        ({
            let h = headed(r, computed);
            let stream = h.sent + h.outbox;
            &&& phase(stream) == Phase::Body
            &&& body_len(stream) == body_len(r.sent + r.outbox)
            &&& r.bodiless ==> forall|k: int|
                0 <= k < stream.len() ==> !body_frame(#[trigger] stream[k])
            &&& forall|k: int|
                0 <= k < stream.len() ==> (#[trigger] stream[k] matches FrameView::Head {
                    content_length,
                    bodiless,
                    ..
                } ==> {
                    &&& bodiless == r.bodiless
                    &&& content_length == if r.head_sent || r.bodiless || r.declared_cl is Some {
                        r.declared_cl
                    } else {
                        computed
                    }
                })
        }),
{
    if !r.head_sent {
        let f = head_frame(r, computed);
        lemma_stream_push(r, f);
        lemma_start(r.sent + r.outbox);
    }
}

/// Writing body bytes keeps the books.
proof fn lemma_body_written_sound<F>(r: RespondView<F>, f: FrameView<F>, len: nat, eos: bool)
    requires
        sound(r),
        resting(r),
        r.stage != Stage::Finalized,
        body_frame(f),
        payload::<F>()(f) == len,
        room_for(r, len),
    ensures
        sound(body_written(r, f, len, eos)),
{
    if r.declared_cl matches Some(cl) && r.sent_body + len > cl {
        let cl = r.declared_cl->0;
        let fit = (cl - r.sent_body) as nat;
        let h = headed(r, Some(cl));
        lemma_headed(r, Some(cl));
        lemma_stream_push(h, fitting(f, fit));
        lemma_framed(with_body(h, fitting(f, fit), fit), cl);
    } else {
        let computed = if eos && r.sent_body == 0 {
            Some(len as u64)
        } else {
            None
        };
        let h = headed(r, computed);
        lemma_headed(r, computed);
        lemma_stream_push(h, f);
        lemma_framed(with_body(h, f, len), (r.sent_body + len) as u64);
    }
}

/// A stream whose one head states enough room keeps its framing.
proof fn lemma_framed<F>(r: RespondView<F>, n: u64)
    requires
        body_len(r.sent + r.outbox) <= n,
        r.bodiless ==> forall|k: int|
            0 <= k < (r.sent + r.outbox).len() ==> !body_frame(#[trigger] (r.sent + r.outbox)[k]),
        forall|k: int|
            0 <= k < (r.sent + r.outbox).len() ==> (#[trigger] (r.sent
                + r.outbox)[k] matches FrameView::Head { content_length, bodiless, .. } ==> {
                &&& bodiless == r.bodiless
                &&& content_length matches Some(m) ==> n <= m
            }),
    ensures
        framing_kept(r.sent + r.outbox),
{
}

/// Every write keeps the books: a unit that balanced before a verb balances
/// after it.
pub proof fn writing_a_body_keeps_the_books<F>(
    r: RespondView<F>,
    closed: bool,
    data: Seq<u8>,
    eos: bool,
)
    requires
        sound(r),
        resting(r),
        data.len() <= MAX_BUFFERED_BODY ==> room_for(r, data.len()),
    ensures
        sound(body_planned(r, closed, data, eos)),
{
    lemma_answered_sound(r, Verb::Finalized);
    lemma_answered_sound(r, Verb::Accepted);
    if r.stage != Stage::Finalized {
        if data.len() > MAX_BUFFERED_BODY {
            lemma_headed(r, None);
            lemma_framed(headed(r, None), r.sent_body);
        } else {
            lemma_body_written_sound(r, FrameView::Chunk(data), data.len(), eos);
        }
    }
}

/// Sending a file slice keeps the books.
pub proof fn sending_a_file_keeps_the_books<F>(
    r: RespondView<F>,
    closed: bool,
    opened: Result<(F, u64), FileFault>,
    offset: u64,
    eos: bool,
)
    requires
        sound(r),
        resting(r),
        opened matches Ok(o) ==> room_for(r, o.1 as nat),
    ensures
        sound(file_planned(r, closed, opened, offset, eos)),
{
    lemma_answered_sound(r, Verb::Finalized);
    if let Err(fault) = opened {
        lemma_answered_sound(r, Verb::FileNotSendable(fault));
    }
    if r.stage != Stage::Finalized {
        if let Ok((file, len)) = opened {
            lemma_body_written_sound(r, FrameView::File { file, offset, len }, len as nat, eos);
        }
    }
}

/// Trailers keep the books.
pub proof fn trailers_keep_the_books<F>(r: RespondView<F>, closed: bool, trailers: Seq<Line>)
    requires
        sound(r),
        resting(r),
    ensures
        sound(trailers_planned(r, closed, trailers)),
{
    lemma_answered_sound(r, Verb::Finalized);
    lemma_answered_sound(r, Verb::HeadNotWritten);
    if r.stage != Stage::Finalized {
        lemma_headed(r, Some(r.sent_body));
        lemma_framed(headed(r, Some(r.sent_body)), r.sent_body);
    }
}

/// A flush keeps the books.
pub proof fn a_flush_keeps_the_books<F>(r: RespondView<F>, closed: bool)
    requires
        sound(r),
        resting(r),
    ensures
        sound(flush_planned(r, closed)),
{
    lemma_answered_sound(r, Verb::Finalized);
    if r.stage != Stage::Finalized {
        lemma_headed(r, None);
        lemma_framed(headed(r, None), r.sent_body);
    }
}

/// A head keeps the books.
pub proof fn a_head_keeps_the_books<F>(
    r: RespondView<F>,
    closed: bool,
    status: u16,
    fields: Seq<Line>,
)
    requires
        sound(r),
        resting(r),
    ensures
        sound(head_planned(r, closed, status, fields)),
{
    lemma_answered_sound(r, Verb::HeadWritten);
    lemma_answered_sound(
        r,
        Verb::BadField(crate::headers::FieldFault::LengthRepeats),
    );
    if r.stage == Stage::Open {
        let f = FrameView::Interim {
            status,
            fields: fields.filter(|l: Line| crate::headers::not_framing(l)),
        };
        lemma_start(r.sent + r.outbox);
        lemma_stream_push(r, f);
        lemma_start((r.sent + r.outbox).push(f));
    }
}

/// One answer of the channel keeps the books.
proof fn lemma_settled_sound<F>(r: RespondView<F>, o: Offered)
    requires
        sound(r),
        r.outbox.len() > 0,
    ensures
        sound(settled(r, o)),
{
    let stream = r.sent + r.outbox;
    match o {
        Offered::Full => {},
        Offered::Taken => {
            assert(r.sent.push(r.outbox[0]) + r.outbox.drop_first() =~= stream);
        },
        Offered::Closed => {
            let n = r.sent.len() as int;
            assert(stream.take(n) =~= r.sent);
            assert(r.sent + Seq::<FrameView<F>>::empty() =~= r.sent);
            lemma_phase_prefix(stream, n);
            lemma_framing_prefix(stream, n);
            assert forall|k: int| 0 <= k < r.sent.len() implies r.sent[k] == stream[k] by {}
            if !r.head_sent && phase(r.sent) == Phase::Body {
                lemma_body_stays(stream, n);
            }
            if r.outbox[0] is Head {
                assert(stream.take(n + 1) =~= r.sent.push(r.outbox[0]));
                lemma_phase_prefix(stream, n + 1);
                lemma_phase_push(r.sent, r.outbox[0]);
                lemma_start(r.sent);
            }
        },
    }
}

/// Once the head is out a stream never goes back before it.
proof fn lemma_body_stays<F>(s: Seq<FrameView<F>>, i: int)
    requires
        0 <= i <= s.len(),
        well_formed(s),
        phase(s.take(i)) == Phase::Body,
    ensures
        phase(s) == Phase::Body || phase(s) == Phase::Ended,
        phase(s) == Phase::Ended ==> i < s.len() && s.last() is End,
    decreases s.len(),
{
    if i == s.len() {
        assert(s.take(i) =~= s);
    } else {
        assert(s.drop_last().take(i) =~= s.take(i));
        lemma_body_stays(s.drop_last(), i);
    }
}

/// Closing a unit's books keeps them.
proof fn lemma_concluded_sound<F>(r: RespondView<F>)
    requires
        sound(r),
        r.outbox.len() == 0,
        r.plan matches PlanView::Run { ending, .. } && ending is Some,
    ensures
        sound(concluded(r)),
{
}

/// Parting keeps the books.
proof fn lemma_parted_sound<F>(r: RespondView<F>, o: Offered)
    requires
        sound(r),
        r.plan is Farewell,
    ensures
        sound(parted(r, o)),
{
    let stream = r.sent + r.outbox;
    assert(r.outbox =~= Seq::empty());
    assert(stream =~= r.sent);
    let p = parted(r, o);
    assert(p.sent + p.outbox =~= p.sent);
    if o == Offered::Taken {
        let f = crate::respond::end_frame(r);
        lemma_phase_push(r.sent, f);
        lemma_total_push(r.sent, f, payload::<F>());
        assert forall|k: int| 0 <= k < p.sent.len() - 1 implies p.sent[k] == stream[k] by {}
        assert(framing_kept(p.sent)) by {
            assert forall|i: int|
                0 <= i < p.sent.len() implies (#[trigger] p.sent[i] matches FrameView::Head {
                content_length,
                bodiless,
                ..
            } ==> {
                &&& content_length matches Some(n) ==> body_len(p.sent) <= n
                &&& bodiless ==> forall|k: int|
                    0 <= k < p.sent.len() ==> !body_frame(#[trigger] p.sent[k])
            }) by {
                if i < p.sent.len() - 1 {
                    assert(stream[i] == p.sent[i]);
                    assert forall|k: int| 0 <= k < p.sent.len() - 1 implies p.sent[k]
                        == stream[k] by {}
                }
            }
        }
    }
}

/// A probe on record leaves the books as they are.
pub proof fn lemma_looked_sound<F>(r: RespondView<F>, closed: bool)
    requires
        sound(r),
    ensures
        sound(looked(r, closed)),
{
    let l = looked(r, closed);
    assert(l.sent + l.outbox == r.sent + r.outbox);
    assert(running(l) == running(r));
    assert(head_frames_agree(l) == head_frames_agree(r));
}

/// An answer on record leaves the books as they are, and hearing it keeps them.
proof fn lemma_heard_sound<F>(r: RespondView<F>, o: Offered)
    requires
        sound(r),
        due(r) is Some,
    ensures
        sound(logged(r, o)),
        sound(heard(r, o)),
{
    let l = logged(r, o);
    assert(l.sent + l.outbox == r.sent + r.outbox);
    assert(running(l) == running(r));
    assert(head_frames_agree(l) == head_frames_agree(r));
    assert(sound(l));
    if r.outbox.len() > 0 {
        lemma_settled_sound(l, o);
    } else {
        lemma_parted_sound(l, o);
    }
}

/// Whatever the channel answers, working off a verb keeps the books; what the
/// channel has taken stays taken.
pub proof fn delivery_keeps_the_books<F>(
    r: RespondView<F>,
    d: DeskView,
    answers: Seq<Offered>,
)
    requires
        sound(r),
    ensures
        sound(worked_off(r, d, answers).0),
        r.sent.is_prefix_of(worked_off(r, d, answers).0.sent),
        worked_off(r, d, answers).2 is Done <==> resting(worked_off(r, d, answers).0),
        worked_off(r, d, answers).0.probes == r.probes,
    decreases rank(r),
{
    if due(r) is Some {
        if answers.len() > 0 {
            lemma_heard_sound(r, answers[0]);
            if r.outbox.len() > 0 && answers[0] != Offered::Full {
                delivery_keeps_the_books(heard(r, answers[0]), d, answers.drop_first());
            }
        }
    } else {
        match r.plan {
            PlanView::Run { ending: Some(_), .. } => {
                lemma_concluded_sound(r);
                if live_paths(r.spools).len() == 0 {
                    delivery_keeps_the_books(concluded(r), concluding_desk(r, d), answers);
                }
            },
            _ => {},
        }
    }
}

/// The frames that a unit sends always form a stream of the shape
/// `Interim* Head? (Chunk|File)* End?`, and carry no more body bytes than their
/// head states.
pub proof fn the_stream_is_well_formed<F>(r: RespondView<F>)
    requires
        sound(r),
    ensures
        well_formed(r.sent),
        framing_kept(r.sent),
        body_len(r.sent) <= r.sent_body,
        r.declared_cl matches Some(cl) ==> body_len(r.sent) <= cl,
{
    let stream = r.sent + r.outbox;
    let n = r.sent.len() as int;
    assert(stream.take(n) =~= r.sent);
    lemma_phase_prefix(stream, n);
    lemma_framing_prefix(stream, n);
}

/// A unit that has not ended has sent no end, and no end is on the stream while
/// spool files are still to be removed.
pub proof fn no_end_before_the_spools_are_gone<F>(r: RespondView<F>, k: int)
    requires
        sound(r),
        0 <= k < r.sent.len(),
        r.sent[k] is End,
    ensures
        r.stage == Stage::Finalized,
        r.spools.len() == 0,
        k == r.sent.len() - 1,
{
    let stream = r.sent + r.outbox;
    let n = r.sent.len() as int;
    assert(stream.take(n) =~= r.sent);
    lemma_phase_prefix(stream, n);
    lemma_end_is_last(r.sent, k);
    if r.outbox.len() == 0 {
        assert(stream =~= r.sent);
    }
}

/// Nothing follows the end of a stream.
proof fn lemma_end_is_last<F>(s: Seq<FrameView<F>>, k: int)
    requires
        well_formed(s),
        0 <= k < s.len(),
        s[k] is End,
    ensures
        k == s.len() - 1,
        phase(s) == Phase::Ended,
    decreases s.len(),
{
    if k < s.len() - 1 {
        assert(s.drop_last()[k] == s[k]);
        lemma_end_is_last(s.drop_last(), k);
    }
}

/// A unit is counted exactly once: working off a verb touches the scoreboard
/// exactly when it is what finalizes the unit, and then by one handled unit.
pub proof fn a_unit_is_counted_once<F>(r: RespondView<F>, d: DeskView, answers: Seq<Offered>)
    requires
        sound(r),
    ensures
        ({
            let (after, desk, _) = worked_off(r, d, answers);
            &&& r.stage == Stage::Finalized ==> after.stage == Stage::Finalized && desk == d
            &&& r.stage != Stage::Finalized && after.stage != Stage::Finalized ==> desk == d
            &&& r.stage != Stage::Finalized && after.stage == Stage::Finalized ==> exists|
                errored: bool,
                served: bool,
            | desk == #[trigger] concluded_desk(d, errored, served)
        }),
    decreases rank(r),
{
    if due(r) is Some {
        if answers.len() > 0 {
            lemma_heard_sound(r, answers[0]);
            if r.outbox.len() > 0 && answers[0] != Offered::Full {
                a_unit_is_counted_once(heard(r, answers[0]), d, answers.drop_first());
            }
        }
    } else {
        match r.plan {
            PlanView::Run { ending: Some(e), .. } => {
                lemma_concluded_sound(r);
                let _ = concluded_desk(d, cuts(e), crate::respond::by_worker(e));
                if live_paths(r.spools).len() == 0 {
                    a_unit_is_counted_once(concluded(r), concluding_desk(r, d), answers);
                }
            },
            _ => {},
        }
    }
}

/// A finalized unit is final: no verb sends anything, each answers that the
/// response is over (or was discarded), and a discarded unit stays discarded.
pub proof fn a_finalized_unit_is_final<F>(
    r: RespondView<F>,
    d: DeskView,
    closed: bool,
    data: Seq<u8>,
    eos: bool,
    opened: Result<(F, u64), FileFault>,
    offset: u64,
    fields: Seq<Line>,
    status: u16,
    answers: Seq<Offered>,
)
    requires
        sound(r),
        resting(r),
        r.stage == Stage::Finalized,
    ensures
        ({
            let over = if r.discarded {
                Verb::Discarded
            } else {
                Verb::Finalized
            };
            let over_head = if r.discarded {
                Verb::Discarded
            } else {
                Verb::HeadWritten
            };
            &&& worked_off(body_planned(r, closed, data, eos), d, answers) == (
                r,
                d,
                ProgressView::Done(over),
            )
            &&& worked_off(file_planned(r, closed, opened, offset, eos), d, answers) == (
                r,
                d,
                ProgressView::Done(over),
            )
            &&& worked_off(trailers_planned(r, closed, fields), d, answers) == (
                r,
                d,
                ProgressView::Done(over),
            )
            &&& worked_off(flush_planned(r, closed), d, answers) == (
                r,
                d,
                ProgressView::Done(over),
            )
            &&& worked_off(head_planned(r, closed, status, fields), d, answers) == (
                r,
                d,
                ProgressView::Done(over_head),
            )
        }),
{
}

/// A unit whose host is gone is discarded by the first verb that notices, and
/// every later verb says so too, whatever the channel says then.
pub proof fn a_discard_is_sticky<F>(
    r: RespondView<F>,
    closed: bool,
    data: Seq<u8>,
    eos: bool,
    opened: Result<(F, u64), FileFault>,
    offset: u64,
    fields: Seq<Line>,
    status: u16,
)
    requires
        sound(r),
        resting(r),
        r.discarded,
    ensures
        body_planned(r, closed, data, eos) == cut_short(r),
        file_planned(r, closed, opened, offset, eos) == cut_short(r),
        trailers_planned(r, closed, fields) == cut_short(r),
        flush_planned(r, closed) == cut_short(r),
        head_planned(r, closed, status, fields) == cut_short(r),
        cut_short(r).plan == (PlanView::Run {
            ending: None,
            strict: true,
            verb: Verb::Discarded,
        }),
{
}

/// A reader that keeps up gets everything that was planned, then the end.
pub proof fn a_ready_reader_gets_the_whole_response<F>(
    r: RespondView<F>,
    d: DeskView,
    trailers: Seq<Line>,
    truncated: bool,
    strict: bool,
    verb: Verb,
    answers: Seq<Offered>,
)
    requires
        r.plan == (PlanView::Run {
            ending: Some(EndingView::Seal { trailers, truncated }),
            strict,
            verb,
        }),
        live_paths(r.spools).len() == 0,
        answers.len() > r.outbox.len(),
        forall|i: int| 0 <= i < answers.len() ==> answers[i] == Offered::Taken,
    ensures
        ({
            let (after, desk, p) = worked_off(r, d, answers);
            &&& after.sent == r.sent + r.outbox.push(FrameView::End { trailers, truncated })
            &&& after.stage == Stage::Finalized
            &&& !after.open
            &&& desk == concluded_desk(d, truncated, true)
            &&& p == ProgressView::Done(verb)
        }),
    decreases r.outbox.len(),
{
    if r.outbox.len() > 0 {
        let s = heard(r, Offered::Taken);
        a_ready_reader_gets_the_whole_response(
            s,
            d,
            trailers,
            truncated,
            strict,
            verb,
            answers.drop_first(),
        );
        let end = FrameView::<F>::End { trailers, truncated };
        assert(s.sent + s.outbox.push(end) =~= r.sent + r.outbox.push(end));
    } else {
        let c = concluded(r);
        let end = FrameView::<F>::End { trailers, truncated };
        assert(worked_off(c, concluding_desk(r, d), answers) == (
            heard(c, Offered::Taken),
            concluding_desk(r, d),
            ProgressView::Done(verb),
        ));
        assert(r.sent.push(end) =~= r.sent + r.outbox.push(end));
    }
}

/// A write past the declared content-length completes the response per its
/// declaration: exactly the declared number of body bytes is on the stream or
/// on its way, the end is not truncated, and the write itself is refused.
pub proof fn an_exceeding_write_completes_the_declaration<F>(
    r: RespondView<F>,
    data: Seq<u8>,
    eos: bool,
)
    requires
        sound(r),
        resting(r),
        r.stage != Stage::Finalized,
        !r.bodiless,
        data.len() <= MAX_BUFFERED_BODY,
        r.declared_cl matches Some(cl) && r.sent_body + data.len() > cl,
    ensures
        ({
            let p = body_planned(r, false, data, eos);
            &&& body_len(p.sent + p.outbox) == r.declared_cl->0
            &&& p.plan == (PlanView::Run {
                ending: Some(EndingView::Seal { trailers: Seq::empty(), truncated: false }),
                strict: false,
                verb: Verb::ContentLengthExceeded,
            })
        }),
{
    let cl = r.declared_cl->0;
    let fit = (cl - r.sent_body) as nat;
    lemma_headed(r, Some(cl));
    lemma_stream_push(headed(r, Some(cl)), fitting(FrameView::Chunk(data), fit));
}

/// A response that ends on its first write states its own exact length, unless
/// it declared one or has no body.
pub proof fn a_one_shot_response_states_its_length<F>(r: RespondView<F>, data: Seq<u8>)
    requires
        sound(r),
        resting(r),
        r.stage != Stage::Finalized,
        !r.head_sent,
        !r.bodiless,
        r.declared_cl is None,
        0 < data.len() <= MAX_BUFFERED_BODY,
    ensures
        ({
            let p = body_planned(r, false, data, true);
            &&& p.outbox.len() == 2
            &&& p.outbox[0] matches FrameView::Head { content_length, .. } && content_length
                == Some(data.len() as u64)
            &&& p.outbox[1] == FrameView::<F>::Chunk(data)
        }),
{
}

/// What a planned verb still owes after its outbox: the worker's end, if it has
/// one.
pub open spec fn owed_end<F>(r: RespondView<F>) -> Seq<FrameView<F>> {
    match r.plan {
        PlanView::Run { ending: Some(EndingView::Seal { trailers, truncated }), .. } => seq![
            FrameView::End { trailers, truncated },
        ],
        PlanView::Farewell { trailers, truncated, .. } => seq![
            FrameView::End { trailers, truncated },
        ],
        _ => Seq::empty(),
    }
}

/// The worker itself is what ends the response, if anything does.
pub open spec fn ends_by_worker<F>(r: RespondView<F>) -> bool {
    match r.plan {
        PlanView::Run { ending: Some(e), .. } => e is Seal,
        PlanView::Farewell { patient, .. } => patient,
        _ => true,
    }
}

/// A slow reader loses nothing: as long as it is there, a verb that is
/// interrupted still has every frame, and one that is through has put every
/// frame on the stream, in order.
pub proof fn a_slow_reader_loses_nothing<F>(
    r: RespondView<F>,
    d: DeskView,
    answers: Seq<Offered>,
)
    requires
        ends_by_worker(r),
        forall|i: int| 0 <= i < answers.len() ==> answers[i] != Offered::Closed,
    ensures
        ({
            let (after, _, p) = worked_off(r, d, answers);
            &&& p is Done ==> after.sent == r.sent + r.outbox + owed_end(r)
            &&& !(p is Done) ==> after.sent + after.outbox == r.sent + r.outbox && owed_end(after)
                == owed_end(r) && ends_by_worker(after)
        }),
    decreases rank(r),
{
    if r.outbox.len() > 0 {
        if answers.len() > 0 && answers[0] != Offered::Full {
            let s = heard(r, answers[0]);
            a_slow_reader_loses_nothing(s, d, answers.drop_first());
            assert(s.sent + s.outbox =~= r.sent + r.outbox);
        }
    } else {
        assert(r.sent + r.outbox =~= r.sent);
        match r.plan {
            PlanView::Run { ending: Some(_), .. } => {
                let c = concluded(r);
                if live_paths(r.spools).len() == 0 {
                    a_slow_reader_loses_nothing(c, concluding_desk(r, d), answers);
                }
            },
            PlanView::Farewell { .. } => {
                assert(r.sent.push(crate::respond::end_frame(r)) =~= r.sent + r.outbox
                    + owed_end(r));
            },
            _ => {
                assert(r.sent + owed_end(r) =~= r.sent);
            },
        }
    }
}

/// One call on a unit. `closed` is what the channel said when the call began.
pub enum Call<F> {
    Head { closed: bool, status: u16, fields: Seq<Line> },
    Body { closed: bool, data: Seq<u8>, eos: bool },
    File { closed: bool, opened: Result<(F, u64), FileFault>, offset: u64, eos: bool },
    Trailers { closed: bool, trailers: Seq<Line> },
    Flush { closed: bool },
    /// Resuming the verb that is under way.
    Resume,
}

/// The unit's byte count can hold what a call adds to it.
pub open spec fn countable<F>(r: RespondView<F>, c: Call<F>) -> bool {
    match c {
        Call::Body { data, .. } => data.len() <= MAX_BUFFERED_BODY ==> room_for(r, data.len()),
        Call::File { opened, .. } => opened matches Ok(o) ==> room_for(r, o.1 as nat),
        _ => true,
    }
}

/// What a call plans; a verb that is under way is only ever resumed.
pub open spec fn called<F>(r: RespondView<F>, c: Call<F>) -> RespondView<F> {
    if !resting(r) {
        r
    } else {
        match c {
            Call::Head { closed, status, fields } => head_planned(r, closed, status, fields),
            Call::Body { closed, data, eos } => body_planned(r, closed, data, eos),
            Call::File { closed, opened, offset, eos } => file_planned(
                r,
                closed,
                opened,
                offset,
                eos,
            ),
            Call::Trailers { closed, trailers } => trailers_planned(r, closed, trailers),
            Call::Flush { closed } => flush_planned(r, closed),
            Call::Resume => r,
        }
    }
}

/// A unit and its desk after a history of calls, each with the channel's
/// answers.
pub open spec fn lived<F>(
    r: RespondView<F>,
    d: DeskView,
    calls: Seq<(Call<F>, Seq<Offered>)>,
) -> (RespondView<F>, DeskView)
    decreases calls.len(),
{
    if calls.len() == 0 {
        (r, d)
    } else {
        let (before, desk) = lived(r, d, calls.drop_last());
        let (after, desk, _) = worked_off(
            called(before, calls.last().0),
            desk,
            calls.last().1,
        );
        (after, desk)
    }
}

/// Every call of a history was countable when it came.
pub open spec fn countable_history<F>(
    r: RespondView<F>,
    d: DeskView,
    calls: Seq<(Call<F>, Seq<Offered>)>,
) -> bool
    decreases calls.len(),
{
    calls.len() > 0 ==> {
        &&& countable_history(r, d, calls.drop_last())
        &&& countable(lived(r, d, calls.drop_last()).0, calls.last().0)
    }
}

/// A call alone sends nothing and finalizes nothing.
pub proof fn lemma_called<F>(r: RespondView<F>, c: Call<F>)
    requires
        sound(r),
        countable(r, c),
    ensures
        sound(called(r, c)),
        called(r, c).sent == r.sent,
        called(r, c).stage == Stage::Finalized <==> r.stage == Stage::Finalized,
{
    if resting(r) {
        match c {
            Call::Head { closed, status, fields } => {
                a_head_keeps_the_books(r, closed, status, fields);
            },
            Call::Body { closed, data, eos } => {
                writing_a_body_keeps_the_books(r, closed, data, eos);
            },
            Call::File { closed, opened, offset, eos } => {
                sending_a_file_keeps_the_books(r, closed, opened, offset, eos);
            },
            Call::Trailers { closed, trailers } => {
                trailers_keep_the_books(r, closed, trailers);
            },
            Call::Flush { closed } => {
                a_flush_keeps_the_books(r, closed);
            },
            Call::Resume => {},
        }
    }
}

/// Prefixes of prefixes.
proof fn lemma_prefix_of_prefix<A>(a: Seq<A>, b: Seq<A>, c: Seq<A>)
    requires
        a.is_prefix_of(b),
        b.is_prefix_of(c),
    ensures
        a.is_prefix_of(c),
{
    assert(a == b.subrange(0, a.len() as int));
    assert(b == c.subrange(0, b.len() as int));
    assert(c.subrange(0, a.len() as int) =~= a);
}

/// Whatever a script does to a unit, in whatever order, and whatever the channel
/// answers: the frames sent form a well-formed stream that carries no more than
/// its head states, what was sent stays sent, and the unit is counted at most
/// once, exactly when it is finalized.
pub proof fn every_history_keeps_the_books<F>(
    r: RespondView<F>,
    d: DeskView,
    calls: Seq<(Call<F>, Seq<Offered>)>,
)
    requires
        sound(r),
        r.stage != Stage::Finalized,
        countable_history(r, d, calls),
    ensures
        ({
            let (after, desk) = lived(r, d, calls);
            &&& sound(after)
            &&& well_formed(after.sent)
            &&& framing_kept(after.sent)
            &&& r.sent.is_prefix_of(after.sent)
            &&& after.stage != Stage::Finalized ==> desk == d
            &&& after.stage == Stage::Finalized ==> exists|errored: bool, served: bool|
                desk == #[trigger] concluded_desk(d, errored, served)
        }),
    decreases calls.len(),
{
    if calls.len() == 0 {
        the_stream_is_well_formed(r);
    } else {
        let (before, desk) = lived(r, d, calls.drop_last());
        every_history_keeps_the_books(r, d, calls.drop_last());
        let answers = calls.last().1;
        let planned = called(before, calls.last().0);
        lemma_called(before, calls.last().0);
        delivery_keeps_the_books(planned, desk, answers);
        a_unit_is_counted_once(planned, desk, answers);
        let (after, _, _) = worked_off(planned, desk, answers);
        the_stream_is_well_formed(after);
        lemma_prefix_of_prefix(r.sent, before.sent, after.sent);
    }
}

} // verus!
