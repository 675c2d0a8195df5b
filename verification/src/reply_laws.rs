//! A reply from its first event to its last, as a front puts it on the wire.

use vstd::prelude::*;
use vstd::utf8::encode_utf8;
use crate::fields::{lines, Line};
use crate::file_laws::lemma_one_piece;
use crate::frames::{body_len, payload, FrameView};
use crate::front::HttpVersion;
use crate::pieces::cut;
use crate::reply::{
    collects, counted_up, fault_status, fresh_front, front_step, joined, last_head, serve_step,
    ActionView, BodyFrameView, CollectFault, Collected, ExecFault, Front, FrontEventView,
    ReplyFault, ServeActionView, ServeEventView, ServeStage, ServeView,
};
use crate::seqs::lemma_total_push;
use crate::text::{decimal, lossy, lower, same_name, trimmed};
use crate::wire::{
    connection_names, final_fields, framing_is_the_fronts_alone, goes_out, listed_names,
    piece_name, representable,
};

verus! {

/// A front after a run of reply events, and what it did on each; a file slice
/// is pumped whole before the next event.
pub open spec fn front_run<F>(f: Front, s: Seq<FrameView<F>>) -> (Front, Seq<ActionView<F>>)
    decreases s.len(),
{
    if s.len() == 0 {
        (f, Seq::empty())
    } else {
        let before = front_run(f, s.drop_last());
        let (g, a) = front_step(before.0, FrontEventView::Reply(s.last()));
        (
            match a {
                ActionView::File { len, .. } => Front {
                    body_sent: counted_up(g.body_sent, len as nat),
                    ..g
                },
                _ => g,
            },
            before.1.push(a),
        )
    }
}

/// One more event of a run.
proof fn lemma_run_push<F>(f: Front, s: Seq<FrameView<F>>, e: FrameView<F>)
    ensures
        ({
            let before = front_run(f, s);
            let after = front_run(f, s.push(e));
            let (g, a) = front_step(before.0, FrontEventView::Reply(e));
            &&& after.1 == before.1.push(a)
            &&& a is File ==> after.0 == (Front {
                body_sent: counted_up(g.body_sent, a->File_len as nat),
                ..g
            })
            &&& !(a is File) ==> after.0 == g
        }),
{
    assert(s.push(e).drop_last() =~= s);
}

/// What a front does on a body frame that is written.
pub open spec fn passed_on<F>(e: FrameView<F>, a: ActionView<F>) -> bool {
    match e {
        FrameView::Chunk(b) => if b.len() > 0 {
            a == ActionView::<F>::Body(b)
        } else {
            a is Wait
        },
        FrameView::File { file, offset, len } => a == (ActionView::<F>::File { file, offset, len }),
        _ => false,
    }
}

/// A field that frames a body.
pub open spec fn frames_body(l: Line) -> bool {
    same_name(l.0, "content-length"@) || same_name(l.0, "transfer-encoding"@)
}

/// A head on the wire leads with the fields of the script that go out, all of
/// them and in order.
pub open spec fn leads_with(out: Seq<Line>, h: Seq<Line>) -> bool {
    let script = h.filter(goes_out(connection_names(h)));
    script.len() <= out.len() && forall|i: int|
        0 <= i < script.len() ==> out[i] == #[trigger] script[i]
}

/// Interim heads ahead of the final one leave a front as it was.
proof fn lemma_interims<F>(f: Front, s: Seq<FrameView<F>>)
    requires
        forall|i: int| 0 <= i < s.len() ==> #[trigger] s[i] is Interim,
    ensures
        front_run(f, s).0 == f,
        front_run(f, s).1.len() == s.len(),
    decreases s.len(),
{
    if s.len() > 0 {
        assert(s[s.len() - 1] is Interim);
        lemma_interims(f, s.drop_last());
    }
}

/// A run of body frames after a head that has a body.
proof fn lemma_body_run<F>(f: Front, pre: Seq<FrameView<F>>, body: Seq<FrameView<F>>)
    requires
        !front_run(f, pre).0.no_body,
        front_run(f, pre).0.body_sent == 0,
        forall|i: int| 0 <= i < body.len() ==> #[trigger] body[i] is Chunk || body[i] is File,
        body_len(body) <= u64::MAX,
    ensures
        ({
            let start = front_run(f, pre);
            let r = front_run(f, pre + body);
            &&& r.0 == (Front { body_sent: body_len(body) as u64, ..start.0 })
            &&& r.1.len() == start.1.len() + body.len()
            &&& forall|i: int| 0 <= i < start.1.len() ==> r.1[i] == #[trigger] start.1[i]
            &&& forall|i: int|
                0 <= i < body.len() ==> passed_on(#[trigger] body[i], r.1[start.1.len() + i])
        }),
    decreases body.len(),
{
    let start = front_run(f, pre);
    if body.len() == 0 {
        assert(pre + body =~= pre);
    } else {
        let b = body.drop_last();
        lemma_total_push(b, body.last(), payload::<F>());
        assert(body =~= b.push(body.last()));
        assert(body[body.len() - 1] is Chunk || body[body.len() - 1] is File);
        lemma_body_run(f, pre, b);
        lemma_run_push(f, pre + b, body.last());
        assert(pre + body =~= (pre + b).push(body.last()));
        let r = front_run(f, pre + body);
        assert forall|i: int| 0 <= i < body.len() implies passed_on(
            #[trigger] body[i],
            r.1[start.1.len() + i],
        ) by {
            if i < b.len() {
                assert(b[i] == body[i]);
            }
        }
    }
}

/// A run of body frames after a head that has none.
proof fn lemma_bodiless_run<F>(f: Front, pre: Seq<FrameView<F>>, body: Seq<FrameView<F>>)
    requires
        front_run(f, pre).0.no_body,
        forall|i: int| 0 <= i < body.len() ==> #[trigger] body[i] is Chunk || body[i] is File,
    ensures
        ({
            let start = front_run(f, pre);
            let r = front_run(f, pre + body);
            &&& r.0 == start.0
            &&& r.1.len() == start.1.len() + body.len()
            &&& forall|i: int| 0 <= i < start.1.len() ==> r.1[i] == #[trigger] start.1[i]
            &&& forall|i: int| start.1.len() <= i < r.1.len() ==> #[trigger] r.1[i] is Wait
        }),
    decreases body.len(),
{
    if body.len() == 0 {
        assert(pre + body =~= pre);
    } else {
        let b = body.drop_last();
        assert(body[body.len() - 1] is Chunk || body[body.len() - 1] is File);
        lemma_bodiless_run(f, pre, b);
        lemma_run_push(f, pre + b, body.last());
        assert(pre + body =~= (pre + b).push(body.last()));
    }
}

/// No field that a script sent frames the body.
proof fn lemma_script_frames_nothing(h: Seq<Line>, cl: Option<u64>, chunked: bool, no_body: bool)
    ensures
        ({
            let out = final_fields(h, cl, chunked, no_body);
            let script = h.filter(goes_out(connection_names(h)));
            &&& out.len() == script.len() + (if !no_body && (cl is Some || chunked) {
                1int
            } else {
                0int
            })
            &&& forall|i: int| 0 <= i < script.len() ==> !frames_body(#[trigger] out[i])
            &&& !no_body && cl is Some ==> out.last() == (
                "Content-Length"@,
                encode_utf8(decimal(cl->0 as nat)),
            )
            &&& !no_body && cl is None && chunked ==> out.last() == (
                "Transfer-Encoding"@,
                encode_utf8("chunked"@),
            )
        }),
{
    framing_is_the_fronts_alone(h, cl, chunked, no_body);
    let out = final_fields(h, cl, chunked, no_body);
    let script = h.filter(goes_out(connection_names(h)));
    assert forall|i: int| 0 <= i < script.len() implies !frames_body(#[trigger] out[i]) by {
        assert(out[i] == script[i]);
    }
}

/// A reply to anything but HEAD, with a final status other than 204 and 304 and
/// a head that is not marked bodiless, goes out with its body: every chunk that
/// holds anything is written and every file slice is pumped, in order. The head
/// keeps its status, and frames the body once: by the length that the worker
/// stated, or else, on HTTP/1.1, by chunks; on another version a body without a
/// length ends with the connection. The reply is complete at its end exactly
/// when it is as long as it stated and was not cut.
pub proof fn a_reply_with_a_body_is_written_whole<F>(
    version: HttpVersion,
    interims: Seq<FrameView<F>>,
    status: u16,
    fields: Seq<Line>,
    content_length: Option<u64>,
    body_coded: bool,
    body: Seq<FrameView<F>>,
    trailers: Seq<Line>,
    truncated: bool,
)
    requires
        200 <= status <= 999,
        status != 204,
        status != 304,
        forall|i: int| 0 <= i < interims.len() ==> #[trigger] interims[i] is Interim,
        forall|i: int| 0 <= i < body.len() ==> #[trigger] body[i] is Chunk || body[i] is File,
        body_len(body) <= u64::MAX,
    ensures
        ({
            let head = FrameView::Head {
                status,
                fields,
                content_length,
                bodiless: false,
                body_coded,
            };
            let s = interims.push(head) + body;
            let (f, done) = front_run(fresh_front(version, false), s);
            let end = front_step(
                f,
                FrontEventView::Reply(FrameView::<F>::End { trailers, truncated }),
            );
            let n = interims.len() as int;
            &&& done.len() == s.len()
            &&& done[n] matches ActionView::Head { status: written, fields: out } && {
                &&& written == status
                &&& leads_with(out, fields)
                &&& content_length matches Some(l) ==> out.len() > 0 && out.last() == (
                    "Content-Length"@,
                    encode_utf8(decimal(l as nat)),
                ) && forall|i: int|
                    0 <= i < out.len() - 1 ==> !same_name(
                        (#[trigger] out[i]).0,
                        "content-length"@,
                    ) && !same_name(out[i].0, "transfer-encoding"@)
                &&& content_length is None && version == HttpVersion::Http11 ==> out.len() > 0
                    && out.last() == ("Transfer-Encoding"@, encode_utf8("chunked"@))
                    && forall|i: int|
                    0 <= i < out.len() - 1 ==> !same_name(
                        (#[trigger] out[i]).0,
                        "content-length"@,
                    ) && !same_name(out[i].0, "transfer-encoding"@)
                &&& content_length is None && version != HttpVersion::Http11 ==> forall|i: int|
                    0 <= i < out.len() ==> !same_name((#[trigger] out[i]).0, "content-length"@)
                        && !same_name(out[i].0, "transfer-encoding"@)
            }
            &&& forall|i: int|
                0 <= i < body.len() ==> match #[trigger] body[i] {
                    FrameView::Chunk(b) => if b.len() > 0 {
                        done[n + 1 + i] == ActionView::<F>::Body(b)
                    } else {
                        done[n + 1 + i] is Wait
                    },
                    FrameView::File { file, offset, len } => done[n + 1 + i] == (
                    ActionView::<F>::File { file, offset, len }),
                    _ => false,
                }
            &&& f.keepalive <==> content_length is Some || version == HttpVersion::Http11
            &&& end.1 is Finish <==> !truncated && (content_length matches Some(l) ==> body_len(
                body,
            ) >= l)
            &&& !(end.1 is Finish) ==> end.1 == ActionView::<F>::Fail(ReplyFault::Truncated)
                && !end.0.keepalive
        }),
{
    let f0 = fresh_front(version, false);
    let head = FrameView::<F>::Head { status, fields, content_length, bodiless: false, body_coded };
    lemma_interims(f0, interims);
    lemma_run_push(f0, interims, head);
    let pre = interims.push(head);
    lemma_body_run(f0, pre, body);
    let start = front_run(f0, pre);
    let r = front_run(f0, pre + body);
    let chunked = content_length is None && version == HttpVersion::Http11;
    lemma_script_frames_nothing(fields, content_length, chunked, false);
    let n = interims.len() as int;
    assert(r.1[n] == start.1[n]);
    if let ActionView::Head { fields: out, .. } = r.1[n] {
        assert(out == final_fields(fields, content_length, chunked, false));
        assert forall|i: int| 0 <= i < out.len() && !frames_body(out[i]) implies !same_name(
            (#[trigger] out[i]).0,
            "content-length"@,
        ) && !same_name(out[i].0, "transfer-encoding"@) by {}
        assert forall|i: int| 0 <= i < out.len() - 1 implies !frames_body(#[trigger] out[i]) by {}
    }
    assert forall|i: int| 0 <= i < body.len() implies passed_on(
        #[trigger] body[i],
        r.1[n + 1 + i],
    ) by {}
}

/// A reply to HEAD, with a status of 204 or 304, or with a head that is marked
/// bodiless, goes out as its head alone, with no field that frames a body, and
/// is complete at its end unless it was cut.
pub proof fn a_reply_without_a_body_is_its_head<F>(
    version: HttpVersion,
    head_request: bool,
    interims: Seq<FrameView<F>>,
    status: u16,
    fields: Seq<Line>,
    content_length: Option<u64>,
    bodiless: bool,
    body_coded: bool,
    body: Seq<FrameView<F>>,
    trailers: Seq<Line>,
    truncated: bool,
)
    requires
        200 <= status <= 999,
        status == 204 || status == 304 || head_request || bodiless,
        forall|i: int| 0 <= i < interims.len() ==> #[trigger] interims[i] is Interim,
        forall|i: int| 0 <= i < body.len() ==> #[trigger] body[i] is Chunk || body[i] is File,
    ensures
        ({
            let head = FrameView::Head { status, fields, content_length, bodiless, body_coded };
            let s = interims.push(head) + body;
            let (f, done) = front_run(fresh_front(version, head_request), s);
            let end = front_step(
                f,
                FrontEventView::Reply(FrameView::<F>::End { trailers, truncated }),
            );
            let n = interims.len() as int;
            &&& done.len() == s.len()
            &&& done[n] matches ActionView::Head { status: written, fields: out } && written
                == status && leads_with(out, fields) && forall|i: int|
                0 <= i < out.len() ==> !same_name((#[trigger] out[i]).0, "content-length"@)
                    && !same_name(out[i].0, "transfer-encoding"@)
            &&& forall|i: int| n < i < done.len() ==> #[trigger] done[i] is Wait
            &&& f.keepalive
            &&& truncated ==> end.1 == ActionView::<F>::Fail(ReplyFault::Truncated)
            &&& !truncated ==> end.1 is Finish
        }),
{
    let f0 = fresh_front(version, head_request);
    let head = FrameView::<F>::Head { status, fields, content_length, bodiless, body_coded };
    lemma_interims(f0, interims);
    lemma_run_push(f0, interims, head);
    let pre = interims.push(head);
    lemma_bodiless_run(f0, pre, body);
    let start = front_run(f0, pre);
    let r = front_run(f0, pre + body);
    lemma_script_frames_nothing(fields, None, false, true);
    let n = interims.len() as int;
    assert(r.1[n] == start.1[n]);
    if let ActionView::Head { fields: out, .. } = r.1[n] {
        assert(out == final_fields(fields, None, false, true));
        assert forall|i: int| 0 <= i < out.len() implies !same_name(
            (#[trigger] out[i]).0,
            "content-length"@,
        ) && !same_name(out[i].0, "transfer-encoding"@) by {
            assert(!frames_body(out[i]));
        }
    }
}

/// The statuses around the final ones: what cannot be final is served as 502,
/// with the fields it came with, and what HTTP has no room for fails.
pub proof fn other_statuses_are_not_served<F>(
    f: Front,
    status: u16,
    fields: Seq<Line>,
    content_length: Option<u64>,
    bodiless: bool,
    body_coded: bool,
)
    ensures
        ({
            let head = FrameView::<F>::Head {
                status,
                fields,
                content_length,
                bodiless,
                body_coded,
            };
            let as_502 = FrameView::<F>::Head {
                status: 502,
                fields,
                content_length,
                bodiless,
                body_coded,
            };
            let r = front_step(f, FrontEventView::Reply(head));
            &&& status < 200 ==> r == front_step(f, FrontEventView::Reply(as_502)) && r.1 is Head
                && r.1->Head_status == 502
            &&& status > 999 ==> r.1 == ActionView::<F>::Fail(ReplyFault::BadStatus(status))
                && r.0.head_seen == f.head_seen
        }),
{
}

/// The fields of a final head that a script sent: all that HTTP can carry,
/// in order, but the framing and connection fields and those that a
/// `Connection` field names.
pub proof fn a_script_keeps_its_own_fields(h: Seq<Line>, l: Line)
    ensures
        ({
            let out = h.filter(goes_out(connection_names(h)));
            let connection = connection_names(h).contains(lower(l.0));
            let front = same_name(l.0, "content-length"@) || same_name(l.0, "transfer-encoding"@)
                || same_name(l.0, "connection"@) || same_name(l.0, "keep-alive"@) || same_name(
                l.0,
                "upgrade"@,
            ) || same_name(l.0, "trailer"@) || same_name(l.0, "te"@) || same_name(
                l.0,
                "proxy-connection"@,
            );
            &&& out.contains(l) <==> h.contains(l) && !front && !connection && representable(l)
            &&& !same_name(l.0, "connection"@) ==> h.push(l).filter(
                goes_out(connection_names(h.push(l))),
            ) == if !front && !connection && representable(l) {
                out.push(l)
            } else {
                out
            }
        }),
{
    let pred = goes_out(connection_names(h));
    lemma_filter_members(h, pred, l);
    crate::seqs::lemma_filter_push(h, l, pred);
    assert(h.push(l).drop_last() =~= h);
}

proof fn lemma_filter_members<A>(s: Seq<A>, pred: spec_fn(A) -> bool, x: A)
    ensures
        s.filter(pred).contains(x) <==> s.contains(x) && pred(x),
    decreases s.len(),
{
    reveal(Seq::filter);
    if s.len() > 0 {
        let t = s.drop_last();
        let l = s.last();
        lemma_filter_members(t, pred, x);
        assert(s =~= t.push(l));
        crate::seqs::lemma_filter_push(t, l, pred);
        if s.contains(x) {
            let i = choose|i: int| 0 <= i < s.len() && s[i] == x;
            if i < t.len() {
                assert(t[i] == x);
            }
        }
        if t.contains(x) {
            let i = choose|i: int| 0 <= i < t.len() && t[i] == x;
            assert(s[i] == x);
        }
        if pred(l) {
            let out = t.filter(pred);
            let more = out.push(l);
            if out.contains(x) {
                let i = choose|i: int| 0 <= i < out.len() && out[i] == x;
                assert(more[i] == x);
            }
            if x == l {
                assert(more[out.len() as int] == x);
                assert(s[s.len() - 1] == x);
            }
            if more.contains(x) {
                let i = choose|i: int| 0 <= i < more.len() && more[i] == x;
                if i < out.len() {
                    assert(out[i] == x);
                }
            }
        }
    }
}

/// A reply that breaks off: before its head the client is answered 502, and
/// after it the connection must not look complete.
pub proof fn a_broken_reply_never_looks_complete<F>(f: Front, trailers: Seq<Line>, truncated: bool)
    ensures
        ({
            let gone = front_step::<F>(f, FrontEventView::ReplyGone);
            let closed = front_step::<F>(f, FrontEventView::ClientClosed);
            let end = front_step(
                f,
                FrontEventView::Reply(FrameView::<F>::End { trailers, truncated }),
            );
            &&& gone.1 is Fail && closed.1 is Fail
            &&& !f.head_seen ==> gone.1->Fail_0.answer() == Some(502u16) && end.1 is Fail
                && end.1->Fail_0.answer() == Some(502u16)
            &&& f.head_seen ==> gone.1->Fail_0.answer() is None && !gone.0.keepalive
            &&& f.head_seen && truncated ==> end.1 is Fail && end.1->Fail_0.answer() is None
                && !end.0.keepalive
            &&& closed.1->Fail_0.answer() is None && !closed.0.keepalive
        }),
{
}

/// An interim head goes out only before the final one, and not on HTTP/1.0; it
/// keeps its status and the fields that HTTP can carry, but for the framing and
/// connection fields.
pub proof fn interims_come_first<F>(f: Front, status: u16, fields: Seq<Line>)
    requires
        100 <= status <= 999,
    ensures
        ({
            let r = front_step(
                f,
                FrontEventView::Reply(FrameView::<F>::Interim { status, fields }),
            );
            &&& r.0 == f
            &&& f.head_seen || f.version == HttpVersion::Http10 <==> r.1 is Wait
            &&& !(r.1 is Wait) ==> r.1 is Interim && r.1->Interim_status == status
            &&& !(r.1 is Wait) ==> forall|l: Line| #[trigger]
                r.1->Interim_fields.contains(l) <==> fields.contains(l) && representable(l)
                    && !same_name(l.0, "content-length"@) && !same_name(l.0, "transfer-encoding"@)
                    && !same_name(l.0, "connection"@) && !same_name(l.0, "keep-alive"@)
                    && !same_name(l.0, "upgrade"@) && !same_name(l.0, "trailer"@) && !same_name(
                    l.0,
                    "te"@,
                ) && !same_name(l.0, "proxy-connection"@)
        }),
{
    let pred = goes_out(Seq::empty());
    assert forall|l: Line| #[trigger] fields.filter(pred).contains(l) <==> fields.contains(l)
        && pred(l) by {
        lemma_filter_members(fields, pred, l);
    }
}

/// A head-first front after a run of body frames.
pub open spec fn fed(v: ServeView, s: Seq<Seq<u8>>) -> ServeView
    decreases s.len(),
{
    if s.len() == 0 {
        v
    } else {
        serve_step::<()>(
            fed(v, s.drop_last()),
            ServeEventView::Body(BodyFrameView::Data(s.last())),
        ).0
    }
}

/// The pieces of a body, one after the other.
pub open spec fn whole(s: Seq<Seq<u8>>) -> Seq<u8>
    decreases s.len(),
{
    if s.len() == 0 {
        Seq::empty()
    } else {
        whole(s.drop_last()) + s.last()
    }
}

/// A request body that fits is handed to the pool whole, in order; the piece
/// that takes it over the limit is answered 413, a stall 408, and a body that
/// cannot be read 400.
pub proof fn a_body_that_fits_is_executed<F>(v: ServeView, s: Seq<Seq<u8>>, d: Seq<u8>)
    requires
        v.stage == ServeStage::Reading,
        v.collected.len() == 0,
        whole(s).len() <= v.max_body_size,
    ensures
        ({
            let r = fed(v, s);
            let end = serve_step::<F>(r, ServeEventView::Body(BodyFrameView::End));
            let more = serve_step::<F>(r, ServeEventView::Body(BodyFrameView::Data(d)));
            let stalled = serve_step::<F>(r, ServeEventView::Body(BodyFrameView::Stalled));
            let failed = serve_step::<F>(r, ServeEventView::Body(BodyFrameView::Failed));
            &&& r.stage == ServeStage::Reading
            &&& end.1 == ServeActionView::Execute(whole(s))
            &&& more.1 == ServeActionView::Refuse(413) <==> whole(s).len() + d.len()
                > v.max_body_size
            &&& whole(s).len() + d.len() <= v.max_body_size ==> more.1 is ReadBody
            &&& stalled.1 == ServeActionView::Refuse(408)
            &&& failed.1 == ServeActionView::Refuse(400)
        }),
    decreases s.len(),
{
    lemma_fed(v, s);
}

proof fn lemma_fed(v: ServeView, s: Seq<Seq<u8>>)
    requires
        v.stage == ServeStage::Reading,
        v.collected.len() == 0,
        whole(s).len() <= v.max_body_size,
    ensures
        fed(v, s) == (ServeView { collected: whole(s), ..v }),
    decreases s.len(),
{
    if s.len() > 0 {
        lemma_fed(v, s.drop_last());
    } else {
        assert(v.collected =~= whole(s));
    }
}

/// A head-first front answers with the head that the reply leads with: a status
/// from 200 to 999 is kept, any other becomes a 502, and the worker's length
/// stands unless the method, the status or the head rules a body out. A reply
/// without a head is a 502.
pub proof fn a_head_first_front_answers_with_the_head<F>(
    v: ServeView,
    status: u16,
    fields: Seq<Line>,
    content_length: Option<u64>,
    bodiless: bool,
    body_coded: bool,
    trailers: Seq<Line>,
    truncated: bool,
)
    ensures
        ({
            let head = FrameView::<F>::Head {
                status,
                fields,
                content_length,
                bodiless,
                body_coded,
            };
            let r = serve_step(v, ServeEventView::Reply(Some(head)));
            let gone = serve_step::<F>(v, ServeEventView::Reply(None));
            let end = serve_step(
                v,
                ServeEventView::Reply(Some(FrameView::<F>::End { trailers, truncated })),
            );
            let ruled_out = v.head_request || bodiless || status == 204 || status == 304;
            &&& r.0.stage == ServeStage::Answered
            &&& r.1 matches ServeActionView::Respond {
                status: served,
                fields: out,
                declared_cl,
                no_body,
            } && {
                &&& 200 <= status <= 999 ==> served == status
                &&& status < 200 || status > 999 ==> served == 502
                &&& out == fields
                &&& no_body == ruled_out
                &&& ruled_out ==> declared_cl is None
                &&& !ruled_out ==> declared_cl == content_length
            }
            &&& gone.1 == ServeActionView::Refuse(502)
            &&& end.1 == ServeActionView::Refuse(502)
        }),
{
}

/// A request that was not executed is answered: with its own status where it
/// was refused with one that HTTP has, with 500 where the host failed, and with
/// 502 otherwise.
pub proof fn a_refused_request_is_answered(v: ServeView, status: u16)
    ensures
        ({
            let refused = serve_step::<()>(
                v,
                ServeEventView::Executed(Some(ExecFault::Rejected(status))),
            );
            let host = serve_step::<()>(v, ServeEventView::Executed(Some(ExecFault::Host)));
            let other = serve_step::<()>(v, ServeEventView::Executed(Some(ExecFault::Other)));
            let ran = serve_step::<()>(v, ServeEventView::Executed(None));
            &&& 100 <= status <= 999 ==> refused.1 == ServeActionView::Refuse(status)
            &&& status < 100 || status > 999 ==> refused.1 == ServeActionView::Refuse(500)
            &&& host.1 == ServeActionView::Refuse(500)
            &&& other.1 == ServeActionView::Refuse(502)
            &&& fault_status(ExecFault::Rejected(status)) == status || status < 100 || status > 999
            &&& ran.1 is ReadReply
        }),
{
}

/// What a `Connection` value lists: a value without a comma is one name, in lower
/// case and without the white space around it; an empty one lists none.
pub proof fn a_value_without_commas_lists_one_name(v: Seq<u8>)
    requires
        forall|i: int| 0 <= i < v.len() ==> #[trigger] v[i] != 0x2c,
    ensures
        ({
            let name = lower(trimmed(lossy(v)));
            listed_names(v) == if name.len() > 0 {
                seq![name]
            } else {
                Seq::empty()
            }
        }),
{
    let name = lower(trimmed(lossy(v)));
    let keep = |n: Seq<char>| n.len() > 0;
    let none = Seq::<Seq<char>>::empty();
    lemma_one_piece(v, 0x2c);
    let mapped = cut(v, 0x2c).map_values(|p: Seq<u8>| piece_name(p));
    assert(mapped =~= none.push(name));
    reveal(Seq::filter);
    assert(none.filter(keep) =~= none);
    crate::seqs::lemma_filter_push(none, name, keep);
    assert(none.push(name) =~= seq![name]);
    assert(listed_names(v) == mapped.filter(keep));
}

/// A head's `Connection` lines add up, and no other line names anything.
pub proof fn connection_lines_add_up(h: Seq<Line>, l: Line)
    ensures
        connection_names(Seq::empty()) == Seq::<Seq<char>>::empty(),
        connection_names(h.push(l)) == if same_name(l.0, "connection"@) {
            connection_names(h) + listed_names(l.1)
        } else {
            connection_names(h)
        },
{
    assert(h.push(l).drop_last() =~= h);
}

proof fn lemma_collected<F>(pre: Seq<FrameView<F>>, chunks: Seq<Seq<u8>>)
    ensures
        ({
            let s = pre + chunks.map_values(|b: Seq<u8>| FrameView::<F>::Chunk(b));
            &&& joined(s) == joined(pre) + whole(chunks)
            &&& last_head(s) == last_head(pre)
        }),
    decreases chunks.len(),
{
    let f = |b: Seq<u8>| FrameView::<F>::Chunk(b);
    let s = pre + chunks.map_values(f);
    if chunks.len() == 0 {
        assert(s =~= pre);
        assert(joined(pre) + whole(chunks) =~= joined(pre));
    } else {
        let t = chunks.drop_last();
        lemma_collected(pre, t);
        assert(s.drop_last() =~= pre + t.map_values(f));
        assert(s.last() == FrameView::<F>::Chunk(chunks.last()));
        assert(joined(s) =~= joined(pre) + whole(chunks));
    }
}

/// A reply that is collected is its final head and its chunks, one after the
/// other; a truncated end is a truncated reply, and a reply that breaks off after
/// its head is one too.
pub proof fn a_collected_reply_is_its_head_and_body<F>(
    interims: Seq<FrameView<F>>,
    status: u16,
    fields: Seq<Line>,
    content_length: Option<u64>,
    bodiless: bool,
    body_coded: bool,
    chunks: Seq<Seq<u8>>,
    r: Result<Collected, CollectFault>,
    end: Option<bool>,
)
    requires
        forall|i: int| 0 <= i < interims.len() ==> #[trigger] interims[i] is Interim,
        ({
            let head = FrameView::<F>::Head {
                status,
                fields,
                content_length,
                bodiless,
                body_coded,
            };
            collects(
                interims.push(head) + chunks.map_values(|b: Seq<u8>| FrameView::<F>::Chunk(b)),
                end,
                r,
            )
        }),
    ensures
        end == Some(false) ==> (r matches Ok(c) && c.status == status && lines(c.headers@) == fields
            && c.body@ == whole(chunks)),
        end != Some(false) ==> r == Err::<Collected, CollectFault>(CollectFault::Truncated),
{
    let head = FrameView::<F>::Head { status, fields, content_length, bodiless, body_coded };
    let pre = interims.push(head);
    lemma_collected(pre, chunks);
    assert(pre.drop_last() =~= interims);
    lemma_interims_hold_nothing(interims);
    assert(joined(pre) + whole(chunks) =~= whole(chunks));
}

proof fn lemma_interims_hold_nothing<F>(s: Seq<FrameView<F>>)
    requires
        forall|i: int| 0 <= i < s.len() ==> #[trigger] s[i] is Interim,
    ensures
        joined(s) == Seq::<u8>::empty(),
        last_head(s) is None,
    decreases s.len(),
{
    if s.len() > 0 {
        assert(s[s.len() - 1] is Interim);
        lemma_interims_hold_nothing(s.drop_last());
    }
}

/// A reply without a head: one that broke off died, one that ended has none.
pub proof fn a_headless_reply_is_not_collected<F>(
    interims: Seq<FrameView<F>>,
    r: Result<Collected, CollectFault>,
    end: Option<bool>,
)
    requires
        forall|i: int| 0 <= i < interims.len() ==> #[trigger] interims[i] is Interim,
        collects(interims, end, r),
    ensures
        end is None ==> r == Err::<Collected, CollectFault>(CollectFault::Died),
        end == Some(false) ==> r == Err::<Collected, CollectFault>(CollectFault::NoHead),
        end == Some(true) ==> r == Err::<Collected, CollectFault>(CollectFault::Truncated),
{
    lemma_interims_hold_nothing(interims);
}

/// The body bytes that a front writes, one piece after the other.
pub open spec fn body_on_wire<F>(s: Seq<ActionView<F>>) -> Seq<u8>
    decreases s.len(),
{
    if s.len() == 0 {
        Seq::empty()
    } else {
        match s.last() {
            ActionView::Body(b) => body_on_wire(s.drop_last()) + b,
            _ => body_on_wire(s.drop_last()),
        }
    }
}

proof fn lemma_body_on_wire<F>(f: Front, pre: Seq<FrameView<F>>, body: Seq<FrameView<F>>)
    requires
        !front_run(f, pre).0.no_body,
        front_run(f, pre).0.body_sent == 0,
        forall|i: int| 0 <= i < body.len() ==> #[trigger] body[i] is Chunk || body[i] is File,
        body_len(body) <= u64::MAX,
    ensures
        body_on_wire(front_run(f, pre + body).1) == body_on_wire(front_run(f, pre).1) + joined(
            body,
        ),
    decreases body.len(),
{
    if body.len() == 0 {
        assert(pre + body =~= pre);
        assert(body_on_wire(front_run(f, pre).1) + joined(body) =~= body_on_wire(
            front_run(f, pre).1,
        ));
    } else {
        let b = body.drop_last();
        let e = body.last();
        lemma_total_push(b, e, payload::<F>());
        assert(body =~= b.push(e));
        assert(body[body.len() - 1] is Chunk || body[body.len() - 1] is File);
        lemma_body_run(f, pre, b);
        lemma_body_on_wire(f, pre, b);
        lemma_run_push(f, pre + b, e);
        assert(pre + body =~= (pre + b).push(e));
        let r = front_run(f, pre + body).1;
        assert(r.drop_last() =~= front_run(f, pre + b).1);
        let start = body_on_wire(front_run(f, pre).1);
        match e {
            FrameView::Chunk(c) => {
                assert(start + joined(b) + c =~= start + (joined(b) + c));
                if c.len() == 0 {
                    assert(start + joined(b) + c =~= start + joined(b));
                }
            },
            _ => {},
        }
    }
}

/// The client gets what the worker sent: behind a head that has a body, the bytes
/// that the front writes are those of the stream's chunks, in order.
pub proof fn the_client_gets_every_chunk<F>(
    version: HttpVersion,
    status: u16,
    fields: Seq<Line>,
    content_length: Option<u64>,
    body_coded: bool,
    body: Seq<FrameView<F>>,
)
    requires
        200 <= status <= 999,
        status != 204,
        status != 304,
        forall|i: int| 0 <= i < body.len() ==> #[trigger] body[i] is Chunk || body[i] is File,
        body_len(body) <= u64::MAX,
    ensures
        ({
            let head = FrameView::Head {
                status,
                fields,
                content_length,
                bodiless: false,
                body_coded,
            };
            body_on_wire(front_run(fresh_front(version, false), seq![head] + body).1) == joined(
                body,
            )
        }),
{
    let f = fresh_front(version, false);
    let none = Seq::<FrameView<F>>::empty();
    let head = FrameView::<F>::Head { status, fields, content_length, bodiless: false, body_coded };
    lemma_run_push(f, none, head);
    let pre = none.push(head);
    assert(seq![head] =~= pre);
    let start = front_run(f, pre).1;
    assert(front_run(f, none).1 =~= Seq::<ActionView<F>>::empty());
    assert(start.len() == 1 && start.last() is Head);
    assert(start.drop_last() =~= Seq::<ActionView<F>>::empty());
    assert(body_on_wire(start.drop_last()) =~= Seq::<u8>::empty());
    assert(body_on_wire(start) =~= Seq::<u8>::empty());
    lemma_body_on_wire(f, pre, body);
    assert(Seq::<u8>::empty() + joined(body) =~= joined(body));
}

} // verus!
