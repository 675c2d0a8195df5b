//! The reply stream as a front reads it: one step per event, from what was
//! seen so far to what goes on the wire.

use bytes::Bytes;
use vstd::prelude::*;
use crate::fields::{lines, FieldLines, Line};
use crate::frames::{
    after, body_len, bytes_content, bytes_slice, payload, phase, well_formed, Frame, FrameView,
    Phase, ResponseHead,
};
use crate::front::{append_body, HttpVersion};
use crate::seqs::{lemma_take_push, lemma_total_push};
use crate::wire::{
    build_interim_header, build_response_header, final_fields, goes_out, status_valid, WireHead,
};

verus! {

/// One event of a reply. `F` is an open file.
pub enum ReplyEvent<F> {
    Interim { status: u16, headers: FieldLines },
    Head {
        status: u16,
        headers: FieldLines,
        content_length: Option<u64>,
        bodiless: bool,
        body_coded: bool,
    },
    Chunk(Bytes),
    File { file: F, offset: u64, len: u64 },
    End { trailers: FieldLines, truncated: bool },
}

impl<F> View for ReplyEvent<F> {
    type V = FrameView<F>;

    open spec fn view(&self) -> FrameView<F> {
        match *self {
            ReplyEvent::Interim { status, headers } => FrameView::Interim {
                status,
                fields: lines(headers@),
            },
            ReplyEvent::Head { status, headers, content_length, bodiless, body_coded } => {
                FrameView::Head {
                    status,
                    fields: lines(headers@),
                    content_length,
                    bodiless,
                    body_coded,
                }
            },
            ReplyEvent::Chunk(b) => FrameView::Chunk(bytes_content(b)),
            ReplyEvent::File { file, offset, len } => FrameView::File { file, offset, len },
            ReplyEvent::End { trailers, truncated } => FrameView::End {
                trailers: lines(trailers@),
                truncated,
            },
        }
    }
}

/// A worker's frame as a reply event, field for field.
pub fn reply_event<F>(frame: Frame<F>) -> (r: ReplyEvent<F>)
    ensures
        r@ == frame@,
{
    match frame {
        Frame::Interim(h) => ReplyEvent::Interim { status: h.status, headers: h.headers },
        Frame::Head { head, content_length, bodiless, body_coded } => ReplyEvent::Head {
            status: head.status,
            headers: head.headers,
            content_length,
            bodiless,
            body_coded,
        },
        Frame::Chunk(b) => ReplyEvent::Chunk(b),
        Frame::File { file, offset, len } => ReplyEvent::File { file, offset, len },
        Frame::End { trailers, truncated } => ReplyEvent::End { trailers, truncated },
    }
}

/// How a reply failed before or after its head went out.
#[derive(Clone, Copy, Debug, PartialEq, Eq, Structural)]
pub enum ReplyFault {
    /// The worker died before a response head: 502.
    DiedBeforeHead,
    /// The worker produced no response head: 502.
    NoHead,
    /// A head whose status HTTP has no room for.
    BadStatus(u16),
    /// The client closed while the response was streaming.
    ClientClosed,
    /// The response was cut: the connection must not look complete.
    Truncated,
}

impl ReplyFault {
    /// The status that answers the client: 502 where the worker gave no response
    /// head, 500 for a head that cannot be built. None where the client is gone
    /// or part of the response is out: the connection is closed instead.
    pub open spec fn answer(self) -> Option<u16> {
        match self {
            ReplyFault::DiedBeforeHead => Some(502),
            ReplyFault::NoHead => Some(502),
            ReplyFault::BadStatus(_) => Some(500),
            ReplyFault::ClientClosed => None,
            ReplyFault::Truncated => None,
        }
    }

    /// The status that answers the client, if one still does.
    pub fn status(&self) -> (r: Option<u16>)
        ensures
            r == self.answer(),
    {
        match self {
            ReplyFault::DiedBeforeHead => Some(502),
            ReplyFault::NoHead => Some(502),
            ReplyFault::BadStatus(_) => Some(500),
            ReplyFault::ClientClosed => None,
            ReplyFault::Truncated => None,
        }
    }
}

/// What happens next on the side of a front.
pub enum FrontEvent<F> {
    /// An event of the reply.
    Reply(ReplyEvent<F>),
    /// The reply ended without its end: the worker died.
    ReplyGone,
    /// The client closed the connection.
    ClientClosed,
    /// The client sent more, or failed otherwise: it is no longer watched.
    ClientOther,
}

/// What the front does next.
pub enum FrontAction<F> {
    /// Nothing; wait for the next event.
    Wait,
    WriteInterim(WireHead),
    WriteHead(WireHead),
    WriteBody(Bytes),
    /// Stream the slice, then report how much was written.
    PumpFile { file: F, offset: u64, len: u64 },
    /// Terminate the body; the response is complete.
    Finish,
    Fail(ReplyFault),
}

/// The content of what happens next on the side of a front.
pub enum FrontEventView<F> {
    Reply(FrameView<F>),
    ReplyGone,
    ClientClosed,
    ClientOther,
}

impl<F> View for FrontEvent<F> {
    type V = FrontEventView<F>;

    open spec fn view(&self) -> FrontEventView<F> {
        match *self {
            FrontEvent::Reply(e) => FrontEventView::Reply(e@),
            FrontEvent::ReplyGone => FrontEventView::ReplyGone,
            FrontEvent::ClientClosed => FrontEventView::ClientClosed,
            FrontEvent::ClientOther => FrontEventView::ClientOther,
        }
    }
}

/// The content of what the front does next.
pub enum ActionView<F> {
    Wait,
    Interim { status: u16, fields: Seq<Line> },
    Head { status: u16, fields: Seq<Line> },
    Body(Seq<u8>),
    File { file: F, offset: u64, len: u64 },
    Finish,
    Fail(ReplyFault),
}

impl<F> View for FrontAction<F> {
    type V = ActionView<F>;

    open spec fn view(&self) -> ActionView<F> {
        match *self {
            FrontAction::Wait => ActionView::Wait,
            FrontAction::WriteInterim(w) => ActionView::Interim {
                status: w.status,
                fields: lines(w.fields@),
            },
            FrontAction::WriteHead(w) => ActionView::Head {
                status: w.status,
                fields: lines(w.fields@),
            },
            FrontAction::WriteBody(b) => ActionView::Body(bytes_content(b)),
            FrontAction::PumpFile { file, offset, len } => ActionView::File { file, offset, len },
            FrontAction::Finish => ActionView::Finish,
            FrontAction::Fail(f) => ActionView::Fail(f),
        }
    }
}

/// A front's state while it streams one response.
#[derive(Clone, Copy, Debug, PartialEq, Eq, Structural)]
pub struct Front {
    pub version: HttpVersion,
    pub head_request: bool,
    pub head_seen: bool,
    pub no_body: bool,
    pub declared_cl: Option<u64>,
    pub body_sent: u64,
    pub watch_idle: bool,
    /// Whether the connection may be used again.
    pub keepalive: bool,
}

/// The status a front serves: one below 200 cannot be final and becomes a 502.
pub open spec fn served_status(status: u16) -> u16 {
    if status < 200 {
        502
    } else {
        status
    }
}

/// Whether a response goes out without a body.
pub open spec fn goes_bodiless(status: u16, bodiless: bool, head_request: bool) -> bool {
    bodiless || status == 204 || status == 304 || head_request
}

/// A front that has not seen anything yet.
pub open spec fn fresh_front(version: HttpVersion, head_request: bool) -> Front {
    Front {
        version,
        head_request,
        head_seen: false,
        no_body: false,
        declared_cl: None,
        body_sent: 0,
        watch_idle: true,
        keepalive: true,
    }
}

/// A front once a final head was seen. A body of unknown length ends with the
/// connection where chunks cannot frame it.
pub open spec fn head_taken(
    f: Front,
    status: u16,
    content_length: Option<u64>,
    bodiless: bool,
) -> Front {
    let no_body = goes_bodiless(served_status(status), bodiless, f.head_request);
    Front {
        head_seen: true,
        no_body,
        declared_cl: if no_body {
            None
        } else {
            content_length
        },
        keepalive: f.keepalive && (no_body || content_length is Some || f.version
            == HttpVersion::Http11),
        ..f
    }
}

/// The fields of a final head as a front writes it.
pub open spec fn head_fields(
    f: Front,
    status: u16,
    fields: Seq<Line>,
    content_length: Option<u64>,
    bodiless: bool,
) -> Seq<Line> {
    let taken = head_taken(f, status, content_length, bodiless);
    final_fields(
        fields,
        taken.declared_cl,
        !taken.no_body && content_length is None && f.version == HttpVersion::Http11,
        taken.no_body,
    )
}

/// Bytes sent after `n` more, as far as the counter reaches.
pub open spec fn counted_up(sent: u64, n: nat) -> u64 {
    if sent + n <= u64::MAX {
        (sent + n) as u64
    } else {
        u64::MAX
    }
}

/// Whether a reply that ended was cut: it says so itself, or it sent less than
/// its head declared.
pub open spec fn was_cut(f: Front, truncated: bool) -> bool {
    truncated || (f.declared_cl matches Some(cl) && f.body_sent < cl)
}

/// What a front does on an event of the reply, and what it has seen then.
pub open spec fn replied<F>(f: Front, e: FrameView<F>) -> (Front, ActionView<F>) {
    match e {
        // HTTP/1.0 has no interim class, and a late one has no place
        FrameView::Interim { status, fields } => (
            f,
            if f.version == HttpVersion::Http10 || f.head_seen {
                ActionView::Wait
            } else if 100 <= status <= 999 {
                ActionView::Interim { status, fields: fields.filter(goes_out(Seq::empty())) }
            } else {
                ActionView::Fail(ReplyFault::BadStatus(status))
            },
        ),
        FrameView::Head { status, fields, content_length, bodiless, .. } => {
            let taken = head_taken(f, status, content_length, bodiless);
            if served_status(status) <= 999 {
                (
                    taken,
                    ActionView::Head {
                        status: served_status(status),
                        fields: head_fields(f, status, fields, content_length, bodiless),
                    },
                )
            } else {
                (
                    Front { head_seen: f.head_seen, ..taken },
                    ActionView::Fail(ReplyFault::BadStatus(status)),
                )
            }
        },
        FrameView::Chunk(b) => if f.no_body || b.len() == 0 {
            (f, ActionView::Wait)
        } else {
            (Front { body_sent: counted_up(f.body_sent, b.len()), ..f }, ActionView::Body(b))
        },
        FrameView::File { file, offset, len } => if f.no_body {
            (f, ActionView::Wait)
        } else {
            (f, ActionView::File { file, offset, len })
        },
        FrameView::End { truncated, .. } => if !f.head_seen {
            (f, ActionView::Fail(ReplyFault::NoHead))
        } else if was_cut(f, truncated) {
            (Front { keepalive: false, ..f }, ActionView::Fail(ReplyFault::Truncated))
        } else {
            (f, ActionView::Finish)
        },
    }
}

/// What a front does on an event, and what it has seen then.
pub open spec fn front_step<F>(f: Front, ev: FrontEventView<F>) -> (Front, ActionView<F>) {
    match ev {
        FrontEventView::Reply(e) => replied(f, e),
        FrontEventView::ReplyGone => if f.head_seen {
            (Front { keepalive: false, ..f }, ActionView::Fail(ReplyFault::Truncated))
        } else {
            (f, ActionView::Fail(ReplyFault::DiedBeforeHead))
        },
        FrontEventView::ClientClosed => (
            Front { keepalive: false, ..f },
            ActionView::Fail(ReplyFault::ClientClosed),
        ),
        FrontEventView::ClientOther => (
            Front { watch_idle: false, keepalive: false, ..f },
            ActionView::Wait,
        ),
    }
}

impl Front {
    /// A front before the first event.
    pub fn new(version: HttpVersion, head_request: bool) -> (f: Front)
        ensures
            f == fresh_front(version, head_request),
    {
        Front {
            version,
            head_request,
            head_seen: false,
            no_body: false,
            declared_cl: None,
            body_sent: 0,
            watch_idle: true,
            keepalive: true,
        }
    }

    fn take_head<F>(
        &mut self,
        status: u16,
        headers: FieldLines,
        content_length: Option<u64>,
        bodiless: bool,
    ) -> (a: FrontAction<F>)
        ensures
            100 <= served_status(status) <= 999 ==> {
                &&& *final(self) == head_taken(*old(self), status, content_length, bodiless)
                &&& a matches FrontAction::WriteHead(w) && w.status == served_status(status)
                    && lines(w.fields@) == head_fields(
                    *old(self),
                    status,
                    lines(headers@),
                    content_length,
                    bodiless,
                )
            },
            served_status(status) > 999 ==> a == FrontAction::<F>::Fail(
                ReplyFault::BadStatus(status),
            ) && *final(self) == (Front {
                head_seen: old(self).head_seen,
                ..head_taken(*old(self), status, content_length, bodiless)
            }),
    {
        let served: u16 = if status < 200 {
            502
        } else {
            status
        };
        let no_body = bodiless || served == 204 || served == 304 || self.head_request;
        let http11 = self.version == HttpVersion::Http11;
        let chunked = !no_body && content_length.is_none() && http11;
        let declared: Option<u64> = if no_body {
            None
        } else {
            content_length
        };
        // decided before the head is built: a head that cannot be built leaves
        // the connection as unusable as one that can
        if !no_body && content_length.is_none() && !http11 {
            self.keepalive = false;
        }
        self.no_body = no_body;
        self.declared_cl = declared;
        match build_response_header(served, headers, declared, chunked, no_body) {
            Err(_) => FrontAction::Fail(ReplyFault::BadStatus(status)),
            Ok(w) => {
                self.head_seen = true;
                FrontAction::WriteHead(w)
            },
        }
    }

    /// One step: what the front does on an event.
    pub fn step<F>(&mut self, ev: FrontEvent<F>) -> (a: FrontAction<F>)
        ensures
            (*final(self), a@) == front_step(*old(self), ev@),
            match ev {
                FrontEvent::ClientClosed => {
                    &&& a == FrontAction::<F>::Fail(ReplyFault::ClientClosed)
                    &&& *final(self) == (Front { keepalive: false, ..*old(self) })
                },
                FrontEvent::ClientOther => {
                    &&& a is Wait
                    &&& *final(self) == (Front {
                        watch_idle: false,
                        keepalive: false,
                        ..*old(self)
                    })
                },
                FrontEvent::ReplyGone => if old(self).head_seen {
                    &&& a == FrontAction::<F>::Fail(ReplyFault::Truncated)
                    &&& *final(self) == (Front { keepalive: false, ..*old(self) })
                } else {
                    &&& a == FrontAction::<F>::Fail(ReplyFault::DiedBeforeHead)
                    &&& *final(self) == *old(self)
                },
                FrontEvent::Reply(ReplyEvent::Interim { status, headers }) => {
                    &&& *final(self) == *old(self)
                    // HTTP/1.0 has no interim class, and a late one has no place
                    &&& if old(self).version == HttpVersion::Http10 || old(self).head_seen {
                        a is Wait
                    } else if 100 <= status <= 999 {
                        a matches FrontAction::WriteInterim(w) && w.status == status && lines(
                            w.fields@,
                        ) == lines(headers@).filter(goes_out(Seq::empty()))
                    } else {
                        a == FrontAction::<F>::Fail(ReplyFault::BadStatus(status))
                    }
                },
                FrontEvent::Reply(
                    ReplyEvent::Head { status, headers, content_length, bodiless, body_coded },
                ) => if served_status(status) <= 999 {
                    &&& *final(self) == head_taken(*old(self), status, content_length, bodiless)
                    &&& a matches FrontAction::WriteHead(w) && w.status == served_status(status)
                        && lines(w.fields@) == head_fields(
                        *old(self),
                        status,
                        lines(headers@),
                        content_length,
                        bodiless,
                    )
                } else {
                    &&& a == FrontAction::<F>::Fail(ReplyFault::BadStatus(status))
                    &&& *final(self) == (Front {
                        head_seen: old(self).head_seen,
                        ..head_taken(*old(self), status, content_length, bodiless)
                    })
                },
                FrontEvent::Reply(ReplyEvent::Chunk(b)) => if old(self).no_body || bytes_content(
                    b,
                ).len() == 0 {
                    a is Wait && *final(self) == *old(self)
                } else {
                    &&& a == FrontAction::<F>::WriteBody(b)
                    &&& *final(self) == (Front {
                        body_sent: counted_up(old(self).body_sent, bytes_content(b).len()),
                        ..*old(self)
                    })
                },
                FrontEvent::Reply(ReplyEvent::File { file, offset, len }) => {
                    &&& *final(self) == *old(self)
                    &&& if old(self).no_body {
                        a is Wait
                    } else {
                        a == (FrontAction::<F>::PumpFile { file, offset, len })
                    }
                },
                FrontEvent::Reply(ReplyEvent::End { trailers, truncated }) => if !old(
                    self,
                ).head_seen {
                    &&& a == FrontAction::<F>::Fail(ReplyFault::NoHead)
                    &&& *final(self) == *old(self)
                } else if was_cut(*old(self), truncated) {
                    &&& a == FrontAction::<F>::Fail(ReplyFault::Truncated)
                    &&& *final(self) == (Front { keepalive: false, ..*old(self) })
                } else {
                    a is Finish && *final(self) == *old(self)
                },
            },
    {
        match ev {
            FrontEvent::ClientClosed => {
                self.keepalive = false;
                FrontAction::Fail(ReplyFault::ClientClosed)
            },
            FrontEvent::ClientOther => {
                self.watch_idle = false;
                self.keepalive = false;
                FrontAction::Wait
            },
            FrontEvent::ReplyGone => {
                if !self.head_seen {
                    return FrontAction::Fail(ReplyFault::DiedBeforeHead);
                }
                self.keepalive = false;
                FrontAction::Fail(ReplyFault::Truncated)
            },
            FrontEvent::Reply(ReplyEvent::Interim { status, headers }) => {
                if self.version == HttpVersion::Http10 || self.head_seen {
                    return FrontAction::Wait;
                }
                match build_interim_header(status, headers) {
                    Ok(w) => FrontAction::WriteInterim(w),
                    Err(_) => FrontAction::Fail(ReplyFault::BadStatus(status)),
                }
            },
            FrontEvent::Reply(
                ReplyEvent::Head { status, headers, content_length, bodiless, body_coded: _ },
            ) => self.take_head(status, headers, content_length, bodiless),
            FrontEvent::Reply(ReplyEvent::Chunk(b)) => {
                let len: usize = bytes_slice(&b).len();
                if self.no_body || len == 0 {
                    return FrontAction::Wait;
                }
                self.body_sent = self.body_sent.saturating_add(len as u64);
                FrontAction::WriteBody(b)
            },
            FrontEvent::Reply(ReplyEvent::File { file, offset, len }) => {
                if self.no_body {
                    return FrontAction::Wait;
                }
                FrontAction::PumpFile { file, offset, len }
            },
            FrontEvent::Reply(ReplyEvent::End { trailers: _, truncated }) => {
                if !self.head_seen {
                    return FrontAction::Fail(ReplyFault::NoHead);
                }
                let short = match self.declared_cl {
                    Some(cl) => self.body_sent < cl,
                    None => false,
                };
                if truncated || short {
                    self.keepalive = false;
                    return FrontAction::Fail(ReplyFault::Truncated);
                }
                FrontAction::Finish
            },
        }
    }

    /// A file slice was pumped: `n` bytes went out, fewer than asked where the
    /// file shrank.
    pub fn pumped(&mut self, n: u64)
        ensures
            *final(self) == (Front { body_sent: counted_up(old(self).body_sent, n as nat), ..*old(
                self,
            ) }),
    {
        self.body_sent = self.body_sent.saturating_add(n);
    }
}

/// A response that finishes is as long as it declared: a front never reports a
/// short body as complete.
pub proof fn a_finished_response_is_not_short(f: Front, truncated: bool)
    requires
        !was_cut(f, truncated),
    ensures
        !truncated,
        f.declared_cl matches Some(cl) ==> f.body_sent >= cl,
{
}

/// A front after one event of a reply that goes well: a file slice is pumped
/// whole.
pub open spec fn front_next<F>(f: Front, e: FrameView<F>) -> Front {
    match e {
        FrameView::Head { status, content_length, bodiless, .. } => head_taken(
            f,
            status,
            content_length,
            bodiless,
        ),
        FrameView::Chunk(_) | FrameView::File { .. } => if f.no_body {
            f
        } else {
            Front { body_sent: counted_up(f.body_sent, payload::<F>()(e)), ..f }
        },
        _ => f,
    }
}

/// A front after a whole stream of events.
pub open spec fn streamed<F>(f: Front, s: Seq<FrameView<F>>) -> Front
    decreases s.len(),
{
    if s.len() == 0 {
        f
    } else {
        front_next(streamed(f, s.drop_last()), s.last())
    }
}

/// What a worker put on the stream is what the front counts: after a stream up
/// to its end, a front with a body has sent exactly the stream's body bytes, and
/// holds the length that the head stated.
pub proof fn the_front_counts_what_the_worker_sent<F>(
    version: HttpVersion,
    head_request: bool,
    s: Seq<FrameView<F>>,
)
    requires
        well_formed(s),
        phase(s) != Phase::Ended,
        body_len(s) <= u64::MAX,
    ensures
        ({
            let f = streamed(fresh_front(version, head_request), s);
            &&& f.head_seen <==> phase(s) == Phase::Body
            &&& phase(s) == Phase::Start ==> f == fresh_front(version, head_request)
            &&& !f.no_body ==> f.body_sent == body_len(s)
            &&& f.no_body ==> f.body_sent == 0 && f.declared_cl is None
            &&& forall|i: int|
                0 <= i < s.len() ==> (#[trigger] s[i] matches FrameView::Head {
                    status,
                    content_length,
                    bodiless,
                    ..
                } ==> {
                    &&& f.no_body == goes_bodiless(served_status(status), bodiless, head_request)
                    &&& !f.no_body ==> f.declared_cl == content_length
                })
        }),
    decreases s.len(),
{
    if s.len() > 0 {
        let p = s.drop_last();
        lemma_total_push(p, s.last(), payload::<F>());
        assert(s =~= p.push(s.last()));
        the_front_counts_what_the_worker_sent(version, head_request, p);
        let f = streamed(fresh_front(version, head_request), s);
        if s.last() is Head {
            crate::frames::lemma_start(p);
        }
        assert forall|i: int| 0 <= i < s.len() implies (#[trigger] s[i] matches FrameView::Head {
            status,
            content_length,
            bodiless,
            ..
        } ==> {
            &&& f.no_body == goes_bodiless(served_status(status), bodiless, head_request)
            &&& !f.no_body ==> f.declared_cl == content_length
        }) by {
            if i < p.len() {
                assert(p[i] == s[i]);
            }
        }
    }
}

/// A stream that keeps the length its head states, to the byte, is served as
/// complete: the front finds nothing missing at its end.
pub proof fn an_exact_stream_is_served_complete<F>(
    version: HttpVersion,
    head_request: bool,
    s: Seq<FrameView<F>>,
    i: int,
)
    requires
        well_formed(s),
        phase(s) == Phase::Body,
        body_len(s) <= u64::MAX,
        0 <= i < s.len(),
        s[i] is Head,
        s[i]->content_length matches Some(n) ==> body_len(s) == n,
    ensures
        !was_cut(streamed(fresh_front(version, head_request), s), false),
{
    the_front_counts_what_the_worker_sent(version, head_request, s);
    assert(s[i] is Head);
}

/// Pumping a file slice in pieces.
#[derive(Clone, Copy, Debug, PartialEq, Eq, Structural)]
pub struct FilePump {
    pub offset: u64,
    pub len: u64,
    pub done: u64,
}

/// The most bytes of a file that are read at once.
pub const PUMP_CHUNK: u64 = 65536;

impl FilePump {
    /// The pump stays within its slice.
    pub open spec fn within(self) -> bool {
        self.done <= self.len && self.offset + self.len <= u64::MAX
    }

    /// The next read: where it starts and how much it asks for; none when the
    /// slice is through.
    pub fn next(&self) -> (r: Option<(u64, usize)>)
        requires
            self.within(),
        ensures
            r is None <==> self.done == self.len,
            r matches Some(p) ==> {
                &&& p.0 == self.offset + self.done
                &&& p.1 == (if self.len - self.done < PUMP_CHUNK {
                    self.len - self.done
                } else {
                    PUMP_CHUNK as int
                })
                &&& p.0 + p.1 <= self.offset + self.len
            },
    {
        if self.done >= self.len {
            return None;
        }
        let left: u64 = self.len - self.done;
        let want: u64 = if left < PUMP_CHUNK {
            left
        } else {
            PUMP_CHUNK
        };
        Some((self.offset + self.done, want as usize))
    }

    /// `n` bytes were read; false when the file ended under the slice.
    pub fn read(&mut self, n: usize) -> (more: bool)
        requires
            old(self).within(),
            n <= old(self).len - old(self).done,
        ensures
            more == (n > 0),
            *final(self) == (FilePump { done: (old(self).done + n) as u64, ..*old(self) }),
            final(self).within(),
    {
        self.done = self.done + n as u64;
        n > 0
    }
}

/// A whole reply, collected.
pub struct Collected {
    pub status: u16,
    pub headers: FieldLines,
    pub body: Vec<u8>,
}

/// Why a reply could not be collected.
#[derive(Clone, Copy, Debug, PartialEq, Eq, Structural)]
pub enum CollectFault {
    /// The worker died mid-response.
    Died,
    /// The response was truncated.
    Truncated,
    /// The worker produced no response head.
    NoHead,
}

/// The contents of a list of reply events.
pub open spec fn events<F>(s: Seq<ReplyEvent<F>>) -> Seq<FrameView<F>> {
    s.map_values(|e: ReplyEvent<F>| e@)
}

/// The chunks of a stream, one after the other.
pub open spec fn joined<F>(s: Seq<FrameView<F>>) -> Seq<u8>
    decreases s.len(),
{
    if s.len() == 0 {
        Seq::empty()
    } else {
        match s.last() {
            FrameView::Chunk(b) => joined(s.drop_last()) + b,
            _ => joined(s.drop_last()),
        }
    }
}

/// The last final head of a stream.
pub open spec fn last_head<F>(s: Seq<FrameView<F>>) -> Option<(u16, Seq<Line>)>
    decreases s.len(),
{
    if s.len() == 0 {
        None
    } else {
        match s.last() {
            FrameView::Head { status, fields, .. } => Some((status, fields)),
            _ => last_head(s.drop_last()),
        }
    }
}

/// What collecting a reply comes to; `s` is the reply up to its end, and `end`
/// says whether that end was truncated, or that there was none.
pub open spec fn collects<F>(
    s: Seq<FrameView<F>>,
    end: Option<bool>,
    r: Result<Collected, CollectFault>,
) -> bool {
    match (end, last_head(s)) {
        (None, None) => r == Err::<Collected, CollectFault>(CollectFault::Died),
        (None, Some(_)) => r == Err::<Collected, CollectFault>(CollectFault::Truncated),
        (Some(true), _) => r == Err::<Collected, CollectFault>(CollectFault::Truncated),
        (Some(false), None) => r == Err::<Collected, CollectFault>(CollectFault::NoHead),
        (Some(false), Some(h)) => r matches Ok(c) && c.status == h.0 && lines(c.headers@) == h.1
            && c.body@ == joined(s),
    }
}

/// Collects replies event by event; interim heads are dropped, chunks
/// concatenate. A file slice is fed as the chunks that were read from it.
pub struct Collector {
    pub head: Option<ResponseHead>,
    pub body: Vec<u8>,
}

impl Collector {
    /// The collector has taken exactly these events.
    pub open spec fn took<F>(&self, s: Seq<FrameView<F>>) -> bool {
        &&& match (self.head, last_head(s)) {
            (Some(h), Some(l)) => h.status == l.0 && lines(h.headers@) == l.1,
            (None, None) => true,
            _ => false,
        }
        &&& self.body@ == joined(s)
    }

    /// A collector that took nothing.
    pub fn new() -> (c: Collector)
        ensures
            c.head is None,
            c.body@ == Seq::<u8>::empty(),
    {
        Collector { head: None, body: Vec::new() }
    }

    fn feed<F>(&mut self, ev: ReplyEvent<F>, Ghost(s): Ghost<Seq<FrameView<F>>>)
        requires
            old(self).took(s),
        ensures
            final(self).took(s.push(ev@)),
    {
        assert(s.push(ev@).drop_last() =~= s);
        match ev {
            ReplyEvent::Head { status, headers, .. } => {
                self.head = Some(ResponseHead { status, headers });
            },
            ReplyEvent::Chunk(b) => {
                let piece: &[u8] = bytes_slice(&b);
                self.body.extend_from_slice(piece);
                assert(self.body@ =~= joined(s) + bytes_content(b));
            },
            _ => {},
        }
    }

    fn close(self, end: Option<bool>) -> (r: Result<Collected, CollectFault>)
        ensures
            match (end, self.head) {
                (None, None) => r == Err::<Collected, CollectFault>(CollectFault::Died),
                (None, Some(_)) => r == Err::<Collected, CollectFault>(CollectFault::Truncated),
                (Some(true), _) => r == Err::<Collected, CollectFault>(CollectFault::Truncated),
                (Some(false), None) => r == Err::<Collected, CollectFault>(CollectFault::NoHead),
                (Some(false), Some(h)) => r matches Ok(c) && c.status == h.status && c.headers
                    == h.headers && c.body == self.body,
            },
    {
        match end {
            None => match self.head {
                None => Err(CollectFault::Died),
                Some(_) => Err(CollectFault::Truncated),
            },
            Some(true) => Err(CollectFault::Truncated),
            Some(false) => match self.head {
                None => Err(CollectFault::NoHead),
                Some(h) => Ok(Collected { status: h.status, headers: h.headers, body: self.body }),
            },
        }
    }
}

/// The place of a stream's end.
pub open spec fn end_at<F>(s: Seq<FrameView<F>>) -> nat
    decreases s.len(),
{
    if s.len() == 0 || s[0] is End {
        0
    } else {
        1 + end_at(s.drop_first())
    }
}

/// Collects a whole reply; nothing after its end is looked at.
pub fn collect<F>(reply: Vec<ReplyEvent<F>>) -> (r: Result<Collected, CollectFault>)
    ensures
        ({
            let s = events(reply@);
            let n = end_at(s);
            &&& n <= s.len()
            &&& collects(
                s.take(n as int),
                if n < s.len() {
                    Some(s[n as int]->truncated)
                } else {
                    None
                },
                r,
            )
        }),
{
    let ghost all = events(reply@);
    let mut c = Collector::new();
    let mut end: Option<bool> = None;
    let mut reply = reply;
    let mut done: usize = 0;
    let total: usize = reply.len();
    assert(all.take(0) =~= Seq::empty());
    assert(all.skip(0) =~= all);
    assert(events(reply@) =~= all.skip(0));
    while reply.len() > 0 && end.is_none()
        invariant
            total == all.len(),
            done <= total,
            events(reply@) == all.skip(if end is Some {
                done + 1
            } else {
                done as int
            }),
            c.took(all.take(done as int)),
            end is None ==> end_at(all) == done + end_at(all.skip(done as int)),
            end matches Some(t) ==> done < total && end_at(all) == done && all[done as int] is End
                && all[done as int]->truncated == t,
        decreases reply@.len(),
    {
        let ghost before = reply@;
        let ghost here = all.skip(done as int);
        let ev = reply.remove(0);
        assert(before.len() == here.len());
        assert(events(before)[0] == ev@);
        assert(here[0] == ev@);
        assert(here[0] == all[done as int]);
        assert(here.drop_first() =~= all.skip(done + 1));
        assert(events(reply@) =~= here.drop_first());
        proof {
            lemma_take_push(all, done as int);
        }
        match ev {
            ReplyEvent::End { trailers: _, truncated } => {
                end = Some(truncated);
            },
            other => {
                c.feed(other, Ghost(all.take(done as int)));
                done = done + 1;
            },
        }
    }
    proof {
        if end is None {
            assert(all.skip(done as int).len() == 0);
            assert(done == total);
        }
    }
    c.close(end)
}

/// What a front that answers from the head alone does next.
pub enum HeadStep {
    /// Nothing; wait for the next event.
    Wait,
    /// Answer with this status and no reply body.
    Refuse(u16),
    /// The head to answer with.
    Respond { status: u16, headers: FieldLines, declared_cl: Option<u64>, no_body: bool },
}

/// The status a head-first front serves: one that HTTP has no room for, or that
/// cannot be final, becomes a 502.
pub open spec fn head_first_status(status: u16) -> u16 {
    if 200 <= status <= 999 {
        status
    } else {
        502
    }
}

/// One step of waiting for a reply's head; `None` is a worker that died. Interim
/// heads, and body bytes ahead of the head, are dropped.
pub fn await_head<F>(ev: Option<ReplyEvent<F>>, head_request: bool) -> (r: HeadStep)
    ensures
        match ev {
            None => r == HeadStep::Refuse(502),
            Some(ReplyEvent::Interim { .. }) => r is Wait,
            Some(ReplyEvent::Chunk(_)) => r is Wait,
            Some(ReplyEvent::File { .. }) => r is Wait,
            Some(ReplyEvent::End { .. }) => r == HeadStep::Refuse(502),
            Some(
                ReplyEvent::Head { status, headers, content_length, bodiless, body_coded },
            ) => r matches HeadStep::Respond { status: s, headers: h, declared_cl, no_body } && {
                &&& s == head_first_status(status)
                &&& h == headers
                &&& no_body == goes_bodiless(s, bodiless, head_request)
                &&& declared_cl == if no_body {
                    None
                } else {
                    content_length
                }
            },
        },
{
    match ev {
        None => HeadStep::Refuse(502),
        Some(ReplyEvent::Interim { .. }) => HeadStep::Wait,
        Some(ReplyEvent::Chunk(_)) => HeadStep::Wait,
        Some(ReplyEvent::File { .. }) => HeadStep::Wait,
        Some(ReplyEvent::End { .. }) => HeadStep::Refuse(502),
        Some(ReplyEvent::Head { status, headers, content_length, bodiless, body_coded: _ }) => {
            let served: u16 = if status_valid(status) && status >= 200 {
                status
            } else {
                502
            };
            let no_body = bodiless || served == 204 || served == 304 || head_request;
            let declared_cl: Option<u64> = if no_body {
                None
            } else {
                content_length
            };
            HeadStep::Respond { status: served, headers, declared_cl, no_body }
        },
    }
}

/// Why a request was not executed.
#[derive(Clone, Copy, Debug, PartialEq, Eq, Structural)]
pub enum ExecFault {
    /// Refused before dispatch, with a status of its own.
    Rejected(u16),
    /// The host failed on its own files.
    Host,
    Other,
}

/// The status that answers a request which was not executed.
pub open spec fn fault_status(fault: ExecFault) -> u16 {
    match fault {
        ExecFault::Rejected(status) => if 100 <= status <= 999 {
            status
        } else {
            500
        },
        ExecFault::Host => 500,
        ExecFault::Other => 502,
    }
}

/// The status that answers a request which was not executed.
pub fn exec_fault_status(fault: ExecFault) -> (r: u16)
    ensures
        r == fault_status(fault),
{
    match fault {
        ExecFault::Rejected(status) => {
            if status_valid(status) {
                status
            } else {
                500
            }
        },
        ExecFault::Host => 500,
        ExecFault::Other => 502,
    }
}

/// One frame of a request body as a front reads it.
pub enum BodyFrame {
    /// No frame within the time a client has for one.
    Stalled,
    Data(Vec<u8>),
    /// Request trailers: a script has no surface for them.
    Other,
    Failed,
    End,
}

/// What happens next to a request that a head-first front serves.
pub enum ServeEvent<F> {
    /// A frame of the request body.
    Body(BodyFrame),
    /// The request was handed to the pool, or why it was not.
    Executed(Option<ExecFault>),
    /// An event of the reply; `None` is a worker that died.
    Reply(Option<ReplyEvent<F>>),
}

/// What a head-first front does next.
pub enum ServeAction {
    /// Read the next frame of the request body.
    ReadBody,
    /// Hand the request to the pool, with this body.
    Execute(Vec<u8>),
    /// Read the next event of the reply.
    ReadReply,
    /// Answer with this status and no reply body.
    Refuse(u16),
    /// Answer with this head; the rest of the reply is streamed, or drained
    /// where there is no body.
    Respond { status: u16, headers: FieldLines, declared_cl: Option<u64>, no_body: bool },
}

/// How far a head-first front has got.
#[derive(Clone, Copy, Debug, PartialEq, Eq, Structural)]
pub enum ServeStage {
    Reading,
    Executing,
    Heading,
    Answered,
}

/// A head-first front while it serves one request.
pub struct Serve {
    pub stage: ServeStage,
    pub collected: Vec<u8>,
    pub max_body_size: usize,
    pub head_request: bool,
}

/// The content of a head-first front.
pub struct ServeView {
    pub stage: ServeStage,
    pub collected: Seq<u8>,
    pub max_body_size: usize,
    pub head_request: bool,
}

impl View for Serve {
    type V = ServeView;

    open spec fn view(&self) -> ServeView {
        ServeView {
            stage: self.stage,
            collected: self.collected@,
            max_body_size: self.max_body_size,
            head_request: self.head_request,
        }
    }
}

/// The content of one frame of a request body.
pub enum BodyFrameView {
    Stalled,
    Data(Seq<u8>),
    Other,
    Failed,
    End,
}

/// The content of what happens next to a request.
pub enum ServeEventView<F> {
    Body(BodyFrameView),
    Executed(Option<ExecFault>),
    Reply(Option<FrameView<F>>),
}

impl<F> View for ServeEvent<F> {
    type V = ServeEventView<F>;

    open spec fn view(&self) -> ServeEventView<F> {
        match *self {
            ServeEvent::Body(BodyFrame::Stalled) => ServeEventView::Body(BodyFrameView::Stalled),
            ServeEvent::Body(BodyFrame::Data(d)) => ServeEventView::Body(BodyFrameView::Data(d@)),
            ServeEvent::Body(BodyFrame::Other) => ServeEventView::Body(BodyFrameView::Other),
            ServeEvent::Body(BodyFrame::Failed) => ServeEventView::Body(BodyFrameView::Failed),
            ServeEvent::Body(BodyFrame::End) => ServeEventView::Body(BodyFrameView::End),
            ServeEvent::Executed(f) => ServeEventView::Executed(f),
            ServeEvent::Reply(Some(e)) => ServeEventView::Reply(Some(e@)),
            ServeEvent::Reply(None) => ServeEventView::Reply(None),
        }
    }
}

/// The content of what a head-first front does next.
pub enum ServeActionView {
    ReadBody,
    Execute(Seq<u8>),
    ReadReply,
    Refuse(u16),
    Respond { status: u16, fields: Seq<Line>, declared_cl: Option<u64>, no_body: bool },
}

impl View for ServeAction {
    type V = ServeActionView;

    open spec fn view(&self) -> ServeActionView {
        match *self {
            ServeAction::ReadBody => ServeActionView::ReadBody,
            ServeAction::Execute(b) => ServeActionView::Execute(b@),
            ServeAction::ReadReply => ServeActionView::ReadReply,
            ServeAction::Refuse(status) => ServeActionView::Refuse(status),
            ServeAction::Respond { status, headers, declared_cl, no_body } => {
                ServeActionView::Respond { status, fields: lines(headers@), declared_cl, no_body }
            },
        }
    }
}

/// What a head-first front does on an event, and how far it has got then.
pub open spec fn serve_step<F>(v: ServeView, ev: ServeEventView<F>) -> (
    ServeView,
    ServeActionView,
) {
    let answered = ServeView { stage: ServeStage::Answered, ..v };
    match ev {
        ServeEventView::Body(BodyFrameView::Stalled) => (answered, ServeActionView::Refuse(408)),
        ServeEventView::Body(BodyFrameView::Failed) => (answered, ServeActionView::Refuse(400)),
        ServeEventView::Body(BodyFrameView::Other) => (v, ServeActionView::ReadBody),
        ServeEventView::Body(BodyFrameView::Data(d)) => if v.collected.len() + d.len()
            > v.max_body_size {
            (answered, ServeActionView::Refuse(413))
        } else {
            (ServeView { collected: v.collected + d, ..v }, ServeActionView::ReadBody)
        },
        ServeEventView::Body(BodyFrameView::End) => (
            ServeView { stage: ServeStage::Executing, collected: Seq::empty(), ..v },
            ServeActionView::Execute(v.collected),
        ),
        ServeEventView::Executed(None) => (
            ServeView { stage: ServeStage::Heading, ..v },
            ServeActionView::ReadReply,
        ),
        ServeEventView::Executed(Some(f)) => (
            answered,
            ServeActionView::Refuse(fault_status(f)),
        ),
        ServeEventView::Reply(None) => (answered, ServeActionView::Refuse(502)),
        ServeEventView::Reply(Some(FrameView::End { .. })) => (
            answered,
            ServeActionView::Refuse(502),
        ),
        ServeEventView::Reply(
            Some(FrameView::Head { status, fields, content_length, bodiless, .. }),
        ) => {
            let served = head_first_status(status);
            let no_body = goes_bodiless(served, bodiless, v.head_request);
            (
                answered,
                ServeActionView::Respond {
                    status: served,
                    fields,
                    declared_cl: if no_body {
                        None
                    } else {
                        content_length
                    },
                    no_body,
                },
            )
        },
        ServeEventView::Reply(Some(_)) => (v, ServeActionView::ReadReply),
    }
}

impl Serve {
    /// Whether an event is one that the front waits for.
    pub open spec fn expects<F>(&self, ev: ServeEvent<F>) -> bool {
        match ev {
            ServeEvent::Body(_) => self.stage == ServeStage::Reading,
            ServeEvent::Executed(_) => self.stage == ServeStage::Executing,
            ServeEvent::Reply(_) => self.stage == ServeStage::Heading,
        }
    }

    /// A front that starts to read a request body.
    pub fn new(max_body_size: usize, head_request: bool) -> (s: Serve)
        ensures
            s.stage == ServeStage::Reading,
            s.collected@.len() == 0,
            s.max_body_size == max_body_size,
            s.head_request == head_request,
    {
        Serve { stage: ServeStage::Reading, collected: Vec::new(), max_body_size, head_request }
    }

    /// One frame of the request body.
    fn read(&mut self, frame: BodyFrame) -> (a: ServeAction)
        ensures
            match frame {
                BodyFrame::Stalled => a == ServeAction::Refuse(408),
                BodyFrame::Failed => a == ServeAction::Refuse(400),
                BodyFrame::Other => a is ReadBody,
                BodyFrame::Data(d) => if old(self).collected@.len() + d@.len() > old(
                    self,
                ).max_body_size {
                    a == ServeAction::Refuse(413)
                } else {
                    a is ReadBody
                },
                BodyFrame::End => a matches ServeAction::Execute(body) && body@ == old(
                    self,
                ).collected@,
            },
            final(self).collected@ == (match frame {
                BodyFrame::Data(d) => if old(self).collected@.len() + d@.len() > old(
                    self,
                ).max_body_size {
                    old(self).collected@
                } else {
                    old(self).collected@ + d@
                },
                BodyFrame::End => Seq::empty(),
                _ => old(self).collected@,
            }),
            final(self).stage == (if a is Refuse {
                ServeStage::Answered
            } else if a is Execute {
                ServeStage::Executing
            } else {
                old(self).stage
            }),
            final(self).max_body_size == old(self).max_body_size,
            final(self).head_request == old(self).head_request,
    {
        match frame {
            BodyFrame::Stalled => {
                self.stage = ServeStage::Answered;
                ServeAction::Refuse(408)
            },
            BodyFrame::Failed => {
                self.stage = ServeStage::Answered;
                ServeAction::Refuse(400)
            },
            BodyFrame::Other => ServeAction::ReadBody,
            BodyFrame::Data(d) => {
                let max: usize = self.max_body_size;
                if append_body(&mut self.collected, d.as_slice(), max) {
                    ServeAction::ReadBody
                } else {
                    self.stage = ServeStage::Answered;
                    ServeAction::Refuse(413)
                }
            },
            BodyFrame::End => {
                let mut body: Vec<u8> = Vec::new();
                core::mem::swap(&mut body, &mut self.collected);
                assert(self.collected@ =~= Seq::<u8>::empty());
                self.stage = ServeStage::Executing;
                ServeAction::Execute(body)
            },
        }
    }

    /// One step: what the front does on an event that it waits for.
    pub fn step<F>(&mut self, ev: ServeEvent<F>) -> (a: ServeAction)
        requires
            old(self).expects(ev),
        ensures
            (final(self)@, a@) == serve_step(old(self)@, ev@),
            match ev {
                ServeEvent::Body(BodyFrame::Stalled) => a == ServeAction::Refuse(408),
                ServeEvent::Body(BodyFrame::Failed) => a == ServeAction::Refuse(400),
                ServeEvent::Body(BodyFrame::Other) => a is ReadBody,
                ServeEvent::Body(BodyFrame::Data(d)) => if old(self).collected@.len() + d@.len()
                    > old(self).max_body_size {
                    a == ServeAction::Refuse(413)
                } else {
                    a is ReadBody && final(self).collected@ == old(self).collected@ + d@
                },
                ServeEvent::Body(BodyFrame::End) => a matches ServeAction::Execute(body) && body@
                    == old(self).collected@,
                ServeEvent::Executed(None) => a is ReadReply,
                ServeEvent::Executed(Some(f)) => a == ServeAction::Refuse(fault_status(f)),
                ServeEvent::Reply(None) => a == ServeAction::Refuse(502),
                ServeEvent::Reply(Some(ReplyEvent::End { .. })) => a == ServeAction::Refuse(502),
                ServeEvent::Reply(Some(ReplyEvent::Interim { .. })) => a is ReadReply,
                ServeEvent::Reply(Some(ReplyEvent::Chunk(_))) => a is ReadReply,
                ServeEvent::Reply(Some(ReplyEvent::File { .. })) => a is ReadReply,
                ServeEvent::Reply(
                    Some(
                        ReplyEvent::Head { status, headers, content_length, bodiless, body_coded },
                    ),
                ) => a matches ServeAction::Respond { status: s, headers: h, declared_cl, no_body }
                    && {
                    &&& s == head_first_status(status)
                    &&& h == headers
                    &&& no_body == goes_bodiless(s, bodiless, old(self).head_request)
                    &&& declared_cl == if no_body {
                        None
                    } else {
                        content_length
                    }
                },
            },
            final(self).stage == (match a {
                ServeAction::ReadBody => ServeStage::Reading,
                ServeAction::Execute(_) => ServeStage::Executing,
                ServeAction::ReadReply => ServeStage::Heading,
                ServeAction::Refuse(_) => ServeStage::Answered,
                ServeAction::Respond { .. } => ServeStage::Answered,
            }),
            (ev matches ServeEvent::Body(f) ==> f is Other) ==> final(self).collected@ == old(
                self,
            ).collected@,
            final(self).max_body_size == old(self).max_body_size,
            final(self).head_request == old(self).head_request,
    {
        match ev {
            ServeEvent::Body(frame) => self.read(frame),
            ServeEvent::Executed(None) => {
                self.stage = ServeStage::Heading;
                ServeAction::ReadReply
            },
            ServeEvent::Executed(Some(f)) => {
                self.stage = ServeStage::Answered;
                ServeAction::Refuse(exec_fault_status(f))
            },
            ServeEvent::Reply(r) => {
                match await_head(r, self.head_request) {
                    HeadStep::Wait => ServeAction::ReadReply,
                    HeadStep::Refuse(status) => {
                        self.stage = ServeStage::Answered;
                        ServeAction::Refuse(status)
                    },
                    HeadStep::Respond { status, headers, declared_cl, no_body } => {
                        self.stage = ServeStage::Answered;
                        ServeAction::Respond { status, headers, declared_cl, no_body }
                    },
                }
            },
        }
    }
}

/// How a connection failed, as far as its log line goes.
#[derive(Clone, Copy, Debug, PartialEq, Eq, Structural)]
pub enum WireFault {
    ConnectionClosed,
    WriteFailed,
    WriteTimedOut,
    Other,
}

/// Whether a failed connection is left out of the error log: a client that went
/// away, or that stopped reading, is no fault of the server's.
pub fn suppress_error_log(fault: WireFault) -> (r: bool)
    ensures
        r == !(fault is Other),
{
    match fault {
        WireFault::ConnectionClosed => true,
        WireFault::WriteFailed => true,
        WireFault::WriteTimedOut => true,
        WireFault::Other => false,
    }
}

} // verus!
