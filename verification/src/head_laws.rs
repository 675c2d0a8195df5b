//! What each verb puts on the stream when the reader stays, frame by frame, and
//! which head a run of verbs sends.

use vstd::prelude::*;
use crate::channel::Offered;
use crate::cycle::DeskView;
use crate::fields::Line;
use crate::frames::{lemma_start, phase, the_final_head_occurs_once, FrameView, Phase};
use crate::headers::{coded, declared_length, framing_length, length_line, not_framing, FieldFault};
use crate::respond::{
    head_frame, headed, resting, sound, PendingView, ProgressView, RespondView, Stage, Verb,
};
use crate::respond_laws::{called, countable, ends_by_worker, lemma_called, owed_end, Call};
use crate::seqs::lemma_filter_push;
use crate::sendfile::FileFault;
use crate::stream_laws::{
    after_steps, finds_reader, lemma_calls_prefix, lemma_through, reader_stays, run_of_calls,
    stepped, Step,
};
use crate::text::same_name;

verus! {

/// A field that a script may set: not one that frames the message, nor one that
/// belongs to the connection.
pub open spec fn own_field(l: Line) -> bool {
    !same_name(l.0, "content-length"@) && !same_name(l.0, "transfer-encoding"@) && !same_name(
        l.0,
        "connection"@,
    ) && !same_name(l.0, "keep-alive"@) && !same_name(l.0, "upgrade"@) && !same_name(l.0, "te"@)
        && !same_name(l.0, "proxy-connection"@)
}

/// The fields of a head that a script may set, in order.
pub open spec fn own_fields(h: Seq<Line>) -> Seq<Line> {
    h.filter(|l: Line| own_field(l))
}

/// Filters that agree keep the same elements.
pub proof fn lemma_filters_agree<A>(s: Seq<A>, p: spec_fn(A) -> bool, q: spec_fn(A) -> bool)
    requires
        forall|x: A| #[trigger] p(x) == q(x),
    ensures
        s.filter(p) == s.filter(q),
    decreases s.len(),
{
    reveal(Seq::filter);
    if s.len() > 0 {
        lemma_filters_agree(s.drop_last(), p, q);
    }
}

proof fn lemma_own_fields(h: Seq<Line>)
    ensures
        h.filter(|l: Line| not_framing(l)) == own_fields(h),
{
    let p = |l: Line| not_framing(l);
    let q = |l: Line| own_field(l);
    assert forall|l: Line| #[trigger] p(l) == q(l) by {}
    lemma_filters_agree(h, p, q);
}

/// Each field of a head is kept or left out by its own name alone, whatever is
/// around it.
pub proof fn a_field_is_kept_by_its_name(h: Seq<Line>, l: Line)
    ensures
        own_fields(Seq::empty()) == Seq::<Line>::empty(),
        own_fields(h.push(l)) == if own_field(l) {
            own_fields(h).push(l)
        } else {
            own_fields(h)
        },
{
    reveal(Seq::filter);
    lemma_filter_push(h, l, |x: Line| own_field(x));
    assert(own_fields(Seq::empty()) =~= Seq::<Line>::empty());
}

/// A head declares the length in its one content-length line, where that line
/// holds a number; without such a line it declares none, and with two it is
/// refused.
pub proof fn a_head_declares_its_one_length(h: Seq<Line>, l: Line)
    requires
        forall|i: int| 0 <= i < h.len() ==> !same_name((#[trigger] h[i]).0, "content-length"@),
    ensures
        framing_length(h) is None,
        same_name(l.0, "content-length"@) ==> framing_length(h.push(l)) == declared_length(l.1),
        h.filter(|x: Line| length_line(x)).len() == 0,
        h.push(l).filter(|x: Line| length_line(x)).len() <= 1,
{
    let p = |x: Line| length_line(x);
    lemma_none_kept(h, p);
    lemma_filter_push(h, l, p);
}

proof fn lemma_none_kept<A>(s: Seq<A>, p: spec_fn(A) -> bool)
    requires
        forall|i: int| 0 <= i < s.len() ==> !p(#[trigger] s[i]),
    ensures
        s.filter(p) == Seq::<A>::empty(),
    decreases s.len(),
{
    reveal(Seq::filter);
    if s.len() > 0 {
        assert(!p(s[s.len() - 1]));
        lemma_none_kept(s.drop_last(), p);
    }
    assert(s.filter(p) =~= Seq::<A>::empty());
}

/// The unit is ready for a verb, and its host is there.
pub open spec fn ready<F>(r: RespondView<F>) -> bool {
    sound(r) && resting(r) && !r.discarded
}

/// A step was worked off to a reader that stays.
pub open spec fn went_through<F>(r: RespondView<F>, d: DeskView, s: Step<F>) -> bool {
    &&& finds_reader(s.call)
    &&& countable(r, s.call)
    &&& reader_stays(s.rounds)
    &&& stepped(r, d, s).2 is Done
}

/// What a step leaves behind: all that it planned is on the stream.
proof fn lemma_step<F>(r: RespondView<F>, d: DeskView, s: Step<F>)
    requires
        ready(r),
        went_through(r, d, s),
    ensures
        ({
            let y = called(r, s.call);
            let (after, _, p) = stepped(r, d, s);
            &&& ready(after)
            &&& after.sent == r.sent + y.outbox + owed_end(y)
            &&& after.declared_cl == y.declared_cl
            &&& after.sent_body == y.sent_body
            &&& after.bodiless == y.bodiless
            &&& after.head_sent == y.head_sent
            &&& after.pending == y.pending
            &&& after.stage == crate::stream_laws::planned_stage(y)
            &&& p == ProgressView::Done(crate::stream_laws::planned_verb(y))
        }),
{
    reveal(stepped);
    let y = called(r, s.call);
    lemma_called(r, s.call);
    assert(r.outbox =~= Seq::empty());
    assert(ends_by_worker(y));
    lemma_through(y, d, s.rounds);
}

/// The head that leaves ahead of the first body byte, or alone: one frame where
/// none left before, none otherwise. It is the head that was committed, or a 200
/// without fields, and it states the length `cl`.
pub open spec fn leading<F>(r: RespondView<F>, h: Seq<FrameView<F>>, cl: Option<u64>) -> bool {
    if r.head_sent {
        h.len() == 0
    } else {
        h.len() == 1 && (h[0] matches FrameView::Head {
            status,
            fields,
            content_length,
            bodiless,
            body_coded,
        } && {
            &&& match r.pending {
                Some(p) => status == p.status && fields == p.fields && body_coded == p.body_coded,
                None => status == 200 && fields.len() == 0 && !body_coded,
            }
            &&& content_length == cl
            &&& bodiless == r.bodiless
        })
    }
}

/// A final head is committed, and leaves with what follows it: its own status,
/// the fields that a script may set, and the length that it declares. Responses
/// with status 204, 304 or 101 have no body. An interim head leaves at once.
pub proof fn writing_a_head<F>(
    r: RespondView<F>,
    d: DeskView,
    status: u16,
    fields: Seq<Line>,
    rounds: Seq<Seq<Offered>>,
)
    requires
        ready(r),
        r.stage == Stage::Open,
        went_through(r, d, (Step { call: Call::Head { closed: false, status, fields }, rounds })),
    ensures
        ({
            let s = Step { call: Call::Head { closed: false, status, fields }, rounds };
            let (after, _, p) = stepped(r, d, s);
            let interim = 100 <= status <= 199 && status != 101;
            let lengths = fields.filter(|l: Line| same_name(l.0, "content-length"@));
            &&& interim ==> {
                &&& p == ProgressView::Done(Verb::Interim)
                &&& after.sent == r.sent.push(
                    FrameView::Interim { status, fields: own_fields(fields) },
                )
                &&& after.stage == Stage::Open && after.bodiless == r.bodiless
            }
            &&& !interim && lengths.len() > 1 ==> {
                &&& p == ProgressView::Done(Verb::BadField(FieldFault::LengthRepeats))
                &&& after.sent == r.sent
                &&& after.stage == Stage::Open && after.bodiless == r.bodiless
            }
            &&& !interim && lengths.len() <= 1 ==> {
                &&& p == ProgressView::Done(Verb::Accepted)
                &&& after.sent == r.sent
                &&& after.stage == Stage::HeadCommitted && !after.head_sent
                &&& after.pending matches Some(h) && h.status == status && h.fields == own_fields(
                    fields,
                ) && (h.body_coded <==> exists|i: int|
                    0 <= i < h.fields.len() && same_name(
                        (#[trigger] h.fields[i]).0,
                        "content-encoding"@,
                    ))
                &&& after.bodiless == (r.bodiless || status == 204 || status == 304 || status
                    == 101)
                &&& lengths.len() == 0 ==> after.declared_cl is None
                &&& lengths.len() == 1 ==> match declared_length(lengths[0].1) {
                    Some(n) => after.declared_cl == Some(n as u64),
                    None => after.declared_cl is None,
                }
                &&& after.sent_body == 0
            }
        }),
{
    let s = Step { call: Call::Head { closed: false, status, fields }, rounds };
    lemma_step(r, d, s);
    lemma_own_fields(fields);
    let p = |l: Line| length_line(l);
    let q = |l: Line| same_name(l.0, "content-length"@);
    assert forall|l: Line| #[trigger] p(l) == q(l) by {}
    lemma_filters_agree(fields, p, q);
    let after = stepped(r, d, s).0;
    let y = called(r, s.call);
    assert(r.outbox =~= Seq::empty());
    if 100 <= status <= 199 && status != 101 {
        assert(after.sent =~= r.sent.push(
            FrameView::Interim { status, fields: own_fields(fields) },
        ));
    } else {
        assert(after.sent =~= r.sent);
    }
}

/// A second head is refused and changes nothing.
pub proof fn a_second_head_is_refused<F>(
    r: RespondView<F>,
    d: DeskView,
    status: u16,
    fields: Seq<Line>,
    rounds: Seq<Seq<Offered>>,
)
    requires
        ready(r),
        r.stage != Stage::Open,
        went_through(r, d, (Step { call: Call::Head { closed: false, status, fields }, rounds })),
    ensures
        ({
            let s = Step { call: Call::Head { closed: false, status, fields }, rounds };
            let (after, _, p) = stepped(r, d, s);
            &&& p == ProgressView::Done(Verb::HeadWritten)
            &&& after.sent == r.sent
            &&& after.pending == r.pending && after.stage == r.stage && after.declared_cl
                == r.declared_cl && after.bodiless == r.bodiless
        }),
{
    let s = Step { call: Call::Head { closed: false, status, fields }, rounds };
    lemma_step(r, d, s);
    assert(stepped(r, d, s).0.sent =~= r.sent);
}

/// A body write that fits: the head leaves first, then the bytes, all of them
/// and nothing else, and with `eos` the end. The head of a response that ends
/// with its first write states that write's length, unless it declared one or
/// has no body; a response without a body sends none of it.
pub proof fn writing_a_body<F>(
    r: RespondView<F>,
    d: DeskView,
    data: Seq<u8>,
    eos: bool,
    rounds: Seq<Seq<Offered>>,
    h: Seq<FrameView<F>>,
)
    requires
        ready(r),
        r.stage != Stage::Finalized,
        went_through(r, d, (Step { call: Call::Body { closed: false, data, eos }, rounds })),
        data.len() > 0 || eos,
        data.len() <= 67_108_864,
        r.declared_cl matches Some(cl) ==> r.sent_body + data.len() <= cl,
        leading(
            r,
            h,
            if r.declared_cl is Some || r.bodiless {
                r.declared_cl
            } else if eos && r.sent_body == 0 {
                Some(data.len() as u64)
            } else {
                None
            },
        ),
    ensures
        ({
            let s = Step { call: Call::Body { closed: false, data, eos }, rounds };
            let (after, _, p) = stepped(r, d, s);
            let body = if data.len() > 0 && !r.bodiless {
                seq![FrameView::<F>::Chunk(data)]
            } else {
                Seq::empty()
            };
            let end = if eos {
                seq![FrameView::<F>::End { trailers: Seq::empty(), truncated: false }]
            } else {
                Seq::empty()
            };
            &&& p == ProgressView::Done(Verb::Accepted)
            &&& after.sent == r.sent + h + body + end
            &&& after.head_sent
            &&& after.sent_body == r.sent_body + data.len()
            &&& after.stage == Stage::Finalized <==> eos
        }),
{
    let s = Step { call: Call::Body { closed: false, data, eos }, rounds };
    lemma_step(r, d, s);
    lemma_leading(r, h, if r.declared_cl is Some || r.bodiless {
        r.declared_cl
    } else if eos && r.sent_body == 0 {
        Some(data.len() as u64)
    } else {
        None
    });
    let body = if data.len() > 0 && !r.bodiless {
        seq![FrameView::<F>::Chunk(data)]
    } else {
        Seq::empty()
    };
    let y = called(r, s.call);
    assert(r.outbox =~= Seq::empty());
    assert(y.outbox =~= h + body);
    assert(stepped(r, d, s).0.sent =~= r.sent + h + body + owed_end(y));
}

/// The one head that leads is the frame that the unit plans.
proof fn lemma_leading<F>(r: RespondView<F>, h: Seq<FrameView<F>>, cl: Option<u64>)
    requires
        resting(r),
        sound(r),
        leading(r, h, cl),
        r.declared_cl is Some || r.bodiless ==> cl == r.declared_cl,
    ensures
        headed(r, cl).outbox == h,
        r.bodiless || r.declared_cl is Some ==> forall|c: Option<u64>| #[trigger]
            headed(r, c).outbox == h,
{
    assert(r.outbox =~= Seq::empty());
    if !r.head_sent {
        if r.pending is None {
            assert(h[0]->Head_fields =~= Seq::empty());
        }
        assert(h =~= seq![head_frame(r, cl)]);
        assert(headed(r, cl).outbox =~= h);
        assert forall|c: Option<u64>| r.bodiless || r.declared_cl is Some implies #[trigger]
        headed(r, c).outbox == h by {
            assert(head_frame(r, c) == head_frame(r, cl));
            assert(headed(r, c).outbox =~= h);
        }
    } else {
        assert(h =~= Seq::empty());
    }
}

/// An empty write without `eos` does nothing.
pub proof fn an_empty_write_does_nothing<F>(
    r: RespondView<F>,
    d: DeskView,
    data: Seq<u8>,
    rounds: Seq<Seq<Offered>>,
)
    requires
        ready(r),
        r.stage != Stage::Finalized,
        data.len() == 0,
        went_through(r, d, (Step { call: Call::Body { closed: false, data, eos: false }, rounds })),
    ensures
        ({
            let s = Step { call: Call::Body { closed: false, data, eos: false }, rounds };
            let (after, _, p) = stepped(r, d, s);
            &&& p == ProgressView::Done(Verb::Accepted)
            &&& after.sent == r.sent
            &&& after.stage == r.stage && after.head_sent == r.head_sent && after.pending
                == r.pending
        }),
{
    let s = Step { call: Call::Body { closed: false, data, eos: false }, rounds };
    lemma_step(r, d, s);
    assert(stepped(r, d, s).0.sent =~= r.sent);
}

/// A write past the host's buffer is refused whole: none of it goes out, the
/// head that leaves states no length but a declared one, and the response ends
/// as cut.
pub proof fn an_oversized_write_cuts_the_response<F>(
    r: RespondView<F>,
    d: DeskView,
    data: Seq<u8>,
    eos: bool,
    rounds: Seq<Seq<Offered>>,
    h: Seq<FrameView<F>>,
)
    requires
        ready(r),
        r.stage != Stage::Finalized,
        went_through(r, d, (Step { call: Call::Body { closed: false, data, eos }, rounds })),
        data.len() > 67_108_864,
        leading(r, h, r.declared_cl),
    ensures
        ({
            let s = Step { call: Call::Body { closed: false, data, eos }, rounds };
            let (after, _, p) = stepped(r, d, s);
            &&& p == ProgressView::Done(Verb::Overflow)
            &&& after.sent == (r.sent + h).push(
                FrameView::End { trailers: Seq::empty(), truncated: true },
            )
            &&& after.stage == Stage::Finalized
        }),
{
    let s = Step { call: Call::Body { closed: false, data, eos }, rounds };
    lemma_step(r, d, s);
    lemma_leading(r, h, r.declared_cl);
    let y = called(r, s.call);
    assert(r.outbox =~= Seq::empty());
    assert(y.outbox =~= h) by {
        assert(head_frame(r, None) == head_frame(r, r.declared_cl));
    }
    assert(stepped(r, d, s).0.sent =~= (r.sent + h).push(
        FrameView::End { trailers: Seq::empty(), truncated: true },
    ));
}

/// A write past a declared length sends what fits, and the response is complete
/// as declared.
pub proof fn a_write_past_the_length_is_cut_to_it<F>(
    r: RespondView<F>,
    d: DeskView,
    data: Seq<u8>,
    eos: bool,
    rounds: Seq<Seq<Offered>>,
    h: Seq<FrameView<F>>,
    cl: u64,
)
    requires
        ready(r),
        r.stage != Stage::Finalized,
        went_through(r, d, (Step { call: Call::Body { closed: false, data, eos }, rounds })),
        data.len() <= 67_108_864,
        r.declared_cl == Some(cl),
        r.sent_body + data.len() > cl,
        leading(r, h, Some(cl)),
    ensures
        ({
            let s = Step { call: Call::Body { closed: false, data, eos }, rounds };
            let (after, _, p) = stepped(r, d, s);
            let fit = cl - r.sent_body;
            let body = if fit > 0 && !r.bodiless {
                seq![FrameView::<F>::Chunk(data.take(fit))]
            } else {
                Seq::empty()
            };
            &&& p == ProgressView::Done(Verb::ContentLengthExceeded)
            &&& after.sent == (r.sent + h + body).push(
                FrameView::End { trailers: Seq::empty(), truncated: false },
            )
            &&& after.stage == Stage::Finalized
            &&& after.sent_body == cl
        }),
{
    let s = Step { call: Call::Body { closed: false, data, eos }, rounds };
    lemma_step(r, d, s);
    lemma_leading(r, h, Some(cl));
    let fit = cl - r.sent_body;
    let body = if fit > 0 && !r.bodiless {
        seq![FrameView::<F>::Chunk(data.take(fit))]
    } else {
        Seq::empty()
    };
    let y = called(r, s.call);
    assert(r.outbox =~= Seq::empty());
    assert(y.outbox =~= h + body);
    assert(stepped(r, d, s).0.sent =~= (r.sent + h + body).push(
        FrameView::End { trailers: Seq::empty(), truncated: false },
    ));
}

/// A file that fits goes out as one slice, from its offset and as long as it was
/// opened, behind the head; one that cannot be sent changes nothing.
pub proof fn sending_a_file<F>(
    r: RespondView<F>,
    d: DeskView,
    opened: Result<(F, u64), FileFault>,
    offset: u64,
    eos: bool,
    rounds: Seq<Seq<Offered>>,
    h: Seq<FrameView<F>>,
)
    requires
        ready(r),
        r.stage != Stage::Finalized,
        went_through(
            r,
            d,
            (Step { call: Call::File { closed: false, opened, offset, eos }, rounds }),
        ),
        opened matches Ok(o) ==> {
            &&& r.declared_cl matches Some(cl) ==> r.sent_body + o.1 <= cl
            &&& leading(
                r,
                h,
                if r.declared_cl is Some || r.bodiless {
                    r.declared_cl
                } else if eos && r.sent_body == 0 {
                    Some(o.1)
                } else {
                    None
                },
            )
        },
    ensures
        ({
            let s = Step { call: Call::File { closed: false, opened, offset, eos }, rounds };
            let (after, _, p) = stepped(r, d, s);
            let end = if eos {
                seq![FrameView::<F>::End { trailers: Seq::empty(), truncated: false }]
            } else {
                Seq::empty()
            };
            match opened {
                Err(fault) => {
                    &&& p == ProgressView::Done(Verb::FileNotSendable(fault))
                    &&& after.sent == r.sent
                    &&& after.stage == r.stage && after.head_sent == r.head_sent && after.pending
                        == r.pending
                },
                Ok((file, len)) => {
                    &&& p == ProgressView::Done(Verb::Accepted)
                    &&& after.sent == r.sent + h + (if len > 0 && !r.bodiless {
                        seq![FrameView::<F>::File { file, offset, len }]
                    } else {
                        Seq::empty()
                    }) + end
                    &&& after.head_sent
                    &&& after.sent_body == r.sent_body + len
                    &&& after.stage == Stage::Finalized <==> eos
                },
            }
        }),
{
    let s = Step { call: Call::File { closed: false, opened, offset, eos }, rounds };
    lemma_step(r, d, s);
    let y = called(r, s.call);
    assert(r.outbox =~= Seq::empty());
    match opened {
        Err(_) => {
            assert(stepped(r, d, s).0.sent =~= r.sent);
        },
        Ok((file, len)) => {
            lemma_leading(r, h, if r.declared_cl is Some || r.bodiless {
                r.declared_cl
            } else if eos && r.sent_body == 0 {
                Some(len)
            } else {
                None
            });
            let body = if len > 0 && !r.bodiless {
                seq![FrameView::<F>::File { file, offset, len }]
            } else {
                Seq::empty()
            };
            assert(y.outbox =~= h + body);
            assert(stepped(r, d, s).0.sent =~= r.sent + h + body + owed_end(y));
        },
    }
}

/// A file past a declared length is sent as far as it fits.
pub proof fn a_file_past_the_length_is_cut_to_it<F>(
    r: RespondView<F>,
    d: DeskView,
    file: F,
    len: u64,
    offset: u64,
    eos: bool,
    rounds: Seq<Seq<Offered>>,
    h: Seq<FrameView<F>>,
    cl: u64,
)
    requires
        ready(r),
        r.stage != Stage::Finalized,
        went_through(
            r,
            d,
            (Step {
                call: Call::File { closed: false, opened: Ok((file, len)), offset, eos },
                rounds,
            }),
        ),
        r.declared_cl == Some(cl),
        r.sent_body + len > cl,
        leading(r, h, Some(cl)),
    ensures
        ({
            let s = Step {
                call: Call::File { closed: false, opened: Ok((file, len)), offset, eos },
                rounds,
            };
            let (after, _, p) = stepped(r, d, s);
            let fit = cl - r.sent_body;
            let body = if fit > 0 && !r.bodiless {
                seq![FrameView::<F>::File { file, offset, len: fit as u64 }]
            } else {
                Seq::empty()
            };
            &&& p == ProgressView::Done(Verb::ContentLengthExceeded)
            &&& after.sent == (r.sent + h + body).push(
                FrameView::End { trailers: Seq::empty(), truncated: false },
            )
            &&& after.stage == Stage::Finalized
        }),
{
    let s = Step {
        call: Call::File { closed: false, opened: Ok((file, len)), offset, eos },
        rounds,
    };
    lemma_step(r, d, s);
    lemma_leading(r, h, Some(cl));
    let fit = cl - r.sent_body;
    let body = if fit > 0 && !r.bodiless {
        seq![FrameView::<F>::File { file, offset, len: fit as u64 }]
    } else {
        Seq::empty()
    };
    let y = called(r, s.call);
    assert(r.outbox =~= Seq::empty());
    assert(y.outbox =~= h + body);
    assert(stepped(r, d, s).0.sent =~= (r.sent + h + body).push(
        FrameView::End { trailers: Seq::empty(), truncated: false },
    ));
}

/// Trailers end a response whose head was committed; they ride on its end, but
/// not where there is no body. The head that leaves with them states how much
/// was written before. Without a head they are refused.
pub proof fn writing_trailers<F>(
    r: RespondView<F>,
    d: DeskView,
    trailers: Seq<Line>,
    rounds: Seq<Seq<Offered>>,
    h: Seq<FrameView<F>>,
)
    requires
        ready(r),
        r.stage != Stage::Finalized,
        went_through(r, d, (Step { call: Call::Trailers { closed: false, trailers }, rounds })),
        leading(
            r,
            h,
            if r.declared_cl is Some || r.bodiless {
                r.declared_cl
            } else {
                Some(r.sent_body)
            },
        ),
    ensures
        ({
            let s = Step { call: Call::Trailers { closed: false, trailers }, rounds };
            let (after, _, p) = stepped(r, d, s);
            &&& r.stage == Stage::Open ==> {
                &&& p == ProgressView::Done(Verb::HeadNotWritten)
                &&& after.sent == r.sent
                &&& after.stage == Stage::Open
            }
            &&& r.stage == Stage::HeadCommitted ==> {
                &&& p == ProgressView::Done(Verb::Accepted)
                &&& after.sent == (r.sent + h).push(
                    FrameView::End {
                        trailers: if r.bodiless {
                            Seq::empty()
                        } else {
                            trailers
                        },
                        truncated: false,
                    },
                )
                &&& after.stage == Stage::Finalized
            }
        }),
{
    let s = Step { call: Call::Trailers { closed: false, trailers }, rounds };
    lemma_step(r, d, s);
    assert(r.outbox =~= Seq::empty());
    let y = called(r, s.call);
    if r.stage == Stage::Open {
        assert(stepped(r, d, s).0.sent =~= r.sent);
    } else {
        let cl = if r.declared_cl is Some || r.bodiless {
            r.declared_cl
        } else {
            Some(r.sent_body)
        };
        lemma_leading(r, h, cl);
        assert(y.outbox =~= h);
        assert(stepped(r, d, s).0.sent =~= (r.sent + h).push(owed_end(y)[0]));
    }
}

/// A flush sends the head, if it has not left, and nothing else.
pub proof fn flushing<F>(
    r: RespondView<F>,
    d: DeskView,
    rounds: Seq<Seq<Offered>>,
    h: Seq<FrameView<F>>,
)
    requires
        ready(r),
        r.stage != Stage::Finalized,
        went_through(r, d, (Step { call: Call::Flush { closed: false }, rounds })),
        leading(r, h, r.declared_cl),
    ensures
        ({
            let s = Step { call: Call::Flush { closed: false }, rounds };
            let (after, _, p) = stepped(r, d, s);
            &&& p == ProgressView::Done(Verb::Accepted)
            &&& after.sent == r.sent + h
            &&& after.head_sent
            &&& after.stage == Stage::HeadCommitted
            &&& after.sent_body == r.sent_body
        }),
{
    let s = Step { call: Call::Flush { closed: false }, rounds };
    lemma_step(r, d, s);
    lemma_leading(r, h, r.declared_cl);
    assert(r.outbox =~= Seq::empty());
    let y = called(r, s.call);
    assert(y.outbox =~= h) by {
        assert(head_frame(r, None) == head_frame(r, r.declared_cl));
    }
    assert(stepped(r, d, s).0.sent =~= r.sent + h);
}

/// A response that is over takes nothing more.
pub proof fn a_finished_response_takes_nothing_more<F>(
    r: RespondView<F>,
    d: DeskView,
    s: Step<F>,
)
    requires
        ready(r),
        r.stage == Stage::Finalized,
        went_through(r, d, s),
        !(s.call is Head),
        !(s.call is Resume),
    ensures
        stepped(r, d, s).0.sent == r.sent,
        stepped(r, d, s).0.stage == Stage::Finalized,
        stepped(r, d, s).2 == ProgressView::Done(Verb::Finalized),
{
    lemma_step(r, d, s);
    assert(r.outbox =~= Seq::empty());
    assert(stepped(r, d, s).0.sent =~= r.sent);
}

/// The heads on a stream are all that one.
pub open spec fn heads_are<F>(s: Seq<FrameView<F>>, status: u16, fields: Seq<Line>) -> bool {
    forall|k: int|
        0 <= k < s.len() ==> (#[trigger] s[k] matches FrameView::Head {
            status: on_stream,
            fields: with,
            ..
        } ==> on_stream == status && with == fields)
}

/// What the heads on a stream say of its body.
pub open spec fn heads_frame<F>(
    s: Seq<FrameView<F>>,
    body_coded: bool,
    bodiless: bool,
    declared: Option<u64>,
) -> bool {
    forall|k: int|
        0 <= k < s.len() ==> (#[trigger] s[k] matches FrameView::Head {
            body_coded: marked,
            bodiless: without,
            content_length,
            ..
        } ==> marked == body_coded && without == bodiless && (declared is Some || bodiless
            ==> content_length == declared))
}

/// A final head is somewhere on a stream.
pub open spec fn has_head<F>(s: Seq<FrameView<F>>) -> bool {
    exists|k: int| 0 <= k < s.len() && #[trigger] s[k] is Head
}

/// The unit sends this head, or has sent it: the one that was written, or the
/// implicit one.
spec fn led<F>(
    r: RespondView<F>,
    want: PendingView,
    written: bool,
    bodiless: bool,
    declared: Option<u64>,
) -> bool {
    &&& ready(r)
    &&& r.bodiless == bodiless
    &&& r.declared_cl == declared
    &&& heads_are(r.sent, want.status, want.fields)
    &&& heads_frame(r.sent, want.body_coded, bodiless, declared)
    &&& r.head_sent <==> has_head(r.sent)
    &&& !r.head_sent && written ==> r.pending == Some(want) && r.stage == Stage::HeadCommitted
    &&& !r.head_sent && !written ==> r.pending is None && r.stage == Stage::Open
    &&& !written ==> want.status == 200 && want.fields.len() == 0 && !want.body_coded && declared
        is None
}

/// One call keeps the head that leads.
proof fn lemma_call_keeps_the_head<F>(
    r: RespondView<F>,
    d: DeskView,
    s: Step<F>,
    want: PendingView,
    written: bool,
    bodiless: bool,
    declared: Option<u64>,
)
    requires
        led(r, want, written, bodiless, declared),
        went_through(r, d, s),
        !written ==> (s.call matches Call::Head { status, .. } ==> 100 <= status <= 199 && status
            != 101),
    ensures
        led(stepped(r, d, s).0, want, written, bodiless, declared),
{
    let after = stepped(r, d, s).0;
    let y = called(r, s.call);
    lemma_step(r, d, s);
    assert(r.outbox =~= Seq::empty());
    if !written && !r.head_sent {
        assert(want.fields =~= Seq::empty());
    }
    let more = y.outbox + owed_end(y);
    assert(after.sent =~= r.sent + more);
    assert(y.outbox.len() <= 2);
    assert forall|k: int| 0 <= k < more.len() && #[trigger] more[k] is Head implies !r.head_sent
        && k == 0 && more[k]->Head_status == want.status && more[k]->Head_fields == want.fields
        && more[k]->body_coded == want.body_coded && more[k]->bodiless == bodiless && (declared
        is Some || bodiless ==> more[k]->content_length == declared) by {
        if k < y.outbox.len() {
            assert(more[k] == y.outbox[k]);
        } else {
            assert(more[k] == owed_end(y)[k - y.outbox.len()]);
        }
    }
    assert(y.head_sent && !r.head_sent ==> more.len() > 0 && more[0] is Head);
    assert(!y.head_sent ==> forall|k: int| 0 <= k < more.len() ==> !(#[trigger] more[k] is Head));
    assert forall|k: int| 0 <= k < after.sent.len() implies (#[trigger] after.sent[k])
        == if k < r.sent.len() {
        r.sent[k]
    } else {
        more[k - r.sent.len()]
    } by {}
    assert(y.head_sent <==> has_head(after.sent)) by {
        if r.head_sent {
            let k = choose|k: int| 0 <= k < r.sent.len() && #[trigger] r.sent[k] is Head;
            assert(after.sent[k] is Head);
        } else if y.head_sent {
            assert(after.sent[r.sent.len() as int] is Head);
        } else if has_head(after.sent) {
            let k = choose|k: int| 0 <= k < after.sent.len() && #[trigger] after.sent[k] is Head;
            if k < r.sent.len() {
                assert(r.sent[k] is Head);
            } else {
                assert(more[k - r.sent.len()] is Head);
            }
        }
    }
    assert(heads_are(after.sent, want.status, want.fields));
    assert(heads_frame(after.sent, want.body_coded, bodiless, declared));
}

/// A run of calls keeps the head that leads.
proof fn lemma_run_keeps_the_head<F>(
    r: RespondView<F>,
    d: DeskView,
    steps: Seq<Step<F>>,
    want: PendingView,
    written: bool,
    bodiless: bool,
    declared: Option<u64>,
)
    requires
        led(r, want, written, bodiless, declared),
        run_of_calls(r, d, steps),
        !written ==> forall|i: int|
            0 <= i < steps.len() ==> ((#[trigger] steps[i]).call matches Call::Head { status, .. }
                ==> 100 <= status <= 199 && status != 101),
    ensures
        led(after_steps(r, d, steps).0, want, written, bodiless, declared),
    decreases steps.len(),
{
    if steps.len() > 0 {
        let init = steps.drop_last();
        lemma_calls_prefix(r, d, steps);
        assert forall|i: int| 0 <= i < init.len() implies init[i] == #[trigger] steps[i] by {}
        lemma_run_keeps_the_head(r, d, init, want, written, bodiless, declared);
        let (before, desk) = after_steps(r, d, init);
        assert(steps[steps.len() - 1] == steps.last());
        lemma_call_keeps_the_head(before, desk, steps.last(), want, written, bodiless, declared);
    }
}

/// Nothing but interim heads is on the stream of a unit that is still open.
proof fn lemma_open_has_no_head<F>(r: RespondView<F>)
    requires
        sound(r),
        resting(r),
        r.stage == Stage::Open,
    ensures
        !has_head(r.sent),
{
    assert(r.outbox =~= Seq::empty());
    assert(r.sent + r.outbox =~= r.sent);
    assert(phase(r.sent) == Phase::Start);
    lemma_start(r.sent);
}

/// The head that a script writes is the head that leaves. Once a final head was
/// accepted, whatever calls follow, every final head on the stream has its
/// status and exactly those of its fields that a script may set, in order,
/// whichever verb makes it leave and whatever length is stated with it. A verb
/// that starts or ends the body makes it leave.
pub proof fn the_written_head_is_the_head_that_leaves<F>(
    r: RespondView<F>,
    d: DeskView,
    status: u16,
    fields: Seq<Line>,
    rounds: Seq<Seq<Offered>>,
    rest: Seq<Step<F>>,
)
    requires
        ready(r),
        r.stage == Stage::Open,
        !(100 <= status <= 199) || status == 101,
        fields.filter(|l: Line| same_name(l.0, "content-length"@)).len() <= 1,
        went_through(r, d, (Step { call: Call::Head { closed: false, status, fields }, rounds })),
        ({
            let first = stepped(
                r,
                d,
                (Step { call: Call::Head { closed: false, status, fields }, rounds }),
            );
            run_of_calls(first.0, first.1, rest)
        }),
    ensures
        ({
            let first = stepped(
                r,
                d,
                (Step { call: Call::Head { closed: false, status, fields }, rounds }),
            );
            let after = after_steps(first.0, first.1, rest).0;
            let bodiless = r.bodiless || status == 204 || status == 304 || status == 101;
            &&& heads_are(after.sent, status, own_fields(fields))
            &&& heads_frame(after.sent, coded(own_fields(fields)), bodiless, first.0.declared_cl)
            &&& forall|i: int, j: int|
                0 <= i < after.sent.len() && 0 <= j < after.sent.len() && (#[trigger] after.sent[i])
                    is Head && (#[trigger] after.sent[j]) is Head ==> i == j
            &&& after.stage == Stage::Finalized ==> has_head(after.sent)
            &&& rest.len() > 0 && (rest.last().call matches Call::Body { data, eos, .. } && (
            data.len() > 0 || eos)) ==> has_head(after.sent)
            &&& rest.len() > 0 && (rest.last().call matches Call::File { opened, .. } && opened
                is Ok) ==> has_head(after.sent)
            &&& rest.len() > 0 && (rest.last().call is Flush || rest.last().call is Trailers)
                ==> has_head(after.sent)
        }),
{
    let s = Step { call: Call::Head { closed: false, status, fields }, rounds };
    writing_a_head(r, d, status, fields, rounds);
    lemma_step(r, d, s);
    lemma_open_has_no_head(r);
    let first = stepped(r, d, s);
    let want = first.0.pending->0;
    assert(want.body_coded == coded(own_fields(fields)));
    assert(led(first.0, want, true, first.0.bodiless, first.0.declared_cl));
    lemma_run_keeps_the_head(
        first.0,
        first.1,
        rest,
        want,
        true,
        first.0.bodiless,
        first.0.declared_cl,
    );
    let after = after_steps(first.0, first.1, rest).0;
    assert(after.sent + after.outbox =~= after.sent);
    assert forall|i: int, j: int|
        0 <= i < after.sent.len() && 0 <= j < after.sent.len() && (#[trigger] after.sent[i])
            is Head && (#[trigger] after.sent[j]) is Head implies i == j by {
        the_final_head_occurs_once(after.sent, i, j);
    }
    if rest.len() > 0 {
        lemma_calls_prefix(first.0, first.1, rest);
        let init = rest.drop_last();
        lemma_run_keeps_the_head(
            first.0,
            first.1,
            init,
            want,
            true,
            first.0.bodiless,
            first.0.declared_cl,
        );
        let (before, desk) = after_steps(first.0, first.1, init);
        lemma_step(before, desk, rest.last());
    }
}

/// A response whose script wrote no final head has an implicit one: 200, without
/// fields.
pub proof fn an_unwritten_head_is_a_bare_200<F>(
    r: RespondView<F>,
    d: DeskView,
    steps: Seq<Step<F>>,
)
    requires
        ready(r),
        r.stage == Stage::Open,
        run_of_calls(r, d, steps),
        forall|i: int|
            0 <= i < steps.len() ==> ((#[trigger] steps[i]).call matches Call::Head { status, .. }
                ==> 100 <= status <= 199 && status != 101),
    ensures
        heads_are(after_steps(r, d, steps).0.sent, 200, Seq::empty()),
        heads_frame(after_steps(r, d, steps).0.sent, false, r.bodiless, None),
{
    lemma_open_has_no_head(r);
    let want = PendingView { status: 200, fields: Seq::empty(), body_coded: false };
    assert(led(r, want, false, r.bodiless, None));
    lemma_run_keeps_the_head(r, d, steps, want, false, r.bodiless, None);
}

} // verus!
