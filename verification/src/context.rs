//! The context of a request that runs under the CGI-style modes: the head and
//! body that the script records, and the frames they become.

use tokio::sync::mpsc::Sender;
use vstd::prelude::*;
use crate::cgi::ReqC;
use crate::fields::{ascii_text, line, lines, FieldLines, Line};
use crate::frames::{
    body_len, bytes_from, frames, lemma_phase_push, payload, phase, well_formed, Frame, FrameView,
    Phase, ResponseHead,
};
use crate::headers::coded;
use crate::seqs::{lemma_filter_push, lemma_take_all, lemma_take_push, lemma_total_push};
use crate::text::{all_digits, digits_value, parse_chars, same_name};
use crate::types::{Request, StreamState};

verus! {

/// ASCII white space: space, tab, line feed, form feed, carriage return.
pub open spec fn ascii_space(b: u8) -> bool {
    b == 0x20 || b == 0x09 || b == 0x0a || b == 0x0c || b == 0x0d
}

/// The bytes up to the first white space.
pub open spec fn upto_space(v: Seq<u8>) -> Seq<u8>
    decreases v.len(),
{
    if v.len() == 0 || ascii_space(v[0]) {
        Seq::empty()
    } else {
        seq![v[0]] + upto_space(v.drop_first())
    }
}

/// The first word of a value: leading white space skipped, then up to the next.
pub open spec fn first_word(v: Seq<u8>) -> Seq<u8>
    decreases v.len(),
{
    if v.len() > 0 && ascii_space(v[0]) {
        first_word(v.drop_first())
    } else {
        upto_space(v)
    }
}

/// A number may carry one leading plus sign.
pub open spec fn unsigned_part(w: Seq<u8>) -> Seq<u8> {
    if w.len() > 1 && w[0] == 0x2b {
        w.drop_first()
    } else {
        w
    }
}

/// The status that a `Status` field's value starts with, when it is plausible.
pub open spec fn status_code(v: Seq<u8>) -> Option<u16> {
    let t = ascii_text(unsigned_part(first_word(v)));
    if all_digits(t) && 100 <= digits_value(t) <= 599 {
        Some(digits_value(t) as u16)
    } else {
        None
    }
}

fn is_ascii_space(b: u8) -> (r: bool)
    ensures
        r == ascii_space(b),
{
    b == 0x20 || b == 0x09 || b == 0x0a || b == 0x0c || b == 0x0d
}

/// The status that a `Status` field's value starts with, when it is plausible.
pub fn status_field_code(value: &[u8]) -> (r: Option<u16>)
    ensures
        r == status_code(value@),
{
    let mut start: usize = 0;
    assert(value@.skip(0) =~= value@);
    while start < value.len() && is_ascii_space(value[start])
        invariant
            start <= value@.len(),
            first_word(value@) == first_word(value@.skip(start as int)),
        decreases value@.len() - start,
    {
        assert(value@.skip(start as int).drop_first() =~= value@.skip(start + 1));
        start = start + 1;
    }
    let ghost rest = value@.skip(start as int);
    assert(first_word(value@) == upto_space(rest));
    let mut word: Vec<u8> = Vec::new();
    let mut i: usize = start;
    assert(upto_space(rest) =~= word@ + upto_space(value@.skip(i as int)));
    while i < value.len() && !is_ascii_space(value[i])
        invariant
            i <= value@.len(),
            upto_space(rest) == word@ + upto_space(value@.skip(i as int)),
        decreases value@.len() - i,
    {
        let ghost here = value@.skip(i as int);
        let ghost before = word@;
        assert(here.drop_first() =~= value@.skip(i + 1));
        word.push(value[i]);
        i = i + 1;
        assert(before + (seq![here[0]] + upto_space(here.drop_first())) =~= word@ + upto_space(
            value@.skip(i as int),
        ));
    }
    assert(upto_space(value@.skip(i as int)) =~= Seq::empty());
    assert(word@ =~= first_word(value@));
    let mut chars: Vec<char> = Vec::new();
    let from: usize = if word.len() > 1 && word[0] == 0x2b {
        1
    } else {
        0
    };
    let ghost tail = ascii_text(unsigned_part(word@));
    assert(tail =~= ascii_text(word@).skip(from as int));
    for k in from..word.len()
        invariant
            from <= word@.len(),
            chars@ == ascii_text(word@).subrange(from as int, k as int),
    {
        chars.push(word[k] as char);
        assert(chars@ =~= ascii_text(word@).subrange(from as int, k as int + 1));
    }
    assert(chars@ =~= tail);
    match parse_chars(chars.as_slice(), 599) {
        Some(n) => {
            if n >= 100 {
                Some(n as u16)
            } else {
                None
            }
        },
        None => None,
    }
}

/// A `Status` field.
pub open spec fn status_line(l: Line) -> bool {
    same_name(l.0, "status"@)
}

/// The status a head gets: the last plausible `Status` field wins over the
/// recorded code.
pub open spec fn committed_status(recorded: u16, h: Seq<Line>) -> u16
    decreases h.len(),
{
    if h.len() == 0 {
        recorded
    } else if status_line(h.last()) && status_code(h.last().1) is Some {
        status_code(h.last().1)->0
    } else {
        committed_status(recorded, h.drop_last())
    }
}

/// The context of one request.
#[verifier::reject_recursive_types(F)]
pub struct Context<F> {
    pub req: Request,
    /// The CGI materialization; `None` on the dispatcher path.
    pub c: Option<ReqC>,
    pub sender: Option<Sender<Frame<F>>>,
    pub head: Option<ResponseHead>,
    pub body: Vec<u8>,
    pub stream: StreamState,
    pub tearing_down: bool,
}

/// A buffered response on its way: the frames to send, in order.
#[verifier::reject_recursive_types(F)]
pub struct Outgoing<F> {
    pub sender: Sender<Frame<F>>,
    pub frames: Vec<Frame<F>>,
}

/// A response that carries no body on the wire.
pub open spec fn no_body(status: u16, method: Seq<char>) -> bool {
    status == 204 || status == 304 || 100 <= status < 200 || same_name(method, "HEAD"@)
}

/// The frames of a buffered response: the head if one was recorded, the body if
/// there is one under it, and the end. A truncated body states no length, so
/// that the client can tell it was cut.
pub open spec fn finished<F>(
    method: Seq<char>,
    head: Option<ResponseHead>,
    body: Seq<u8>,
    truncated: bool,
) -> Seq<FrameView<F>> {
    let end = FrameView::End { trailers: Seq::empty(), truncated };
    match head {
        None => seq![end],
        Some(h) => {
            let bodiless = no_body(h.status, method);
            let first = FrameView::Head {
                status: h.status,
                fields: lines(h.headers@),
                content_length: if !bodiless && !truncated {
                    Some(body.len() as u64)
                } else {
                    None
                },
                bodiless,
                body_coded: coded(lines(h.headers@)),
            };
            if body.len() > 0 {
                seq![first, FrameView::Chunk(body), end]
            } else {
                seq![first, end]
            }
        },
    }
}

fn has_coding(h: &FieldLines) -> (r: bool)
    ensures
        r == coded(lines(h@)),
{
    for i in 0..h.len()
        invariant
            forall|k: int| 0 <= k < i ==> !same_name(
                (#[trigger] lines(h@)[k]).0,
                "content-encoding"@,
            ),
    {
        if h[i].0.as_str().eq_ignore_ascii_case("content-encoding") {
            assert(same_name(lines(h@)[i as int].0, "content-encoding"@));
            return true;
        }
        assert(!same_name(lines(h@)[i as int].0, "content-encoding"@));
    }
    false
}

/// A context before and after output was recorded: an implicit head goes ahead
/// of the first of it, and output of the teardown flush does not count as
/// streaming.
pub open spec fn output_kept<F>(
    before: Context<F>,
    after: Context<F>,
    status: u16,
    data: Seq<u8>,
) -> bool {
    &&& before.stream == StreamState::NotSent ==> (after.head matches Some(h) && h.status == status
        && lines(h.headers@) == Seq::<Line>::empty())
    &&& before.stream != StreamState::NotSent ==> after.head == before.head
    &&& after.body@ == before.body@ + data
    &&& after.stream == (if before.tearing_down {
        if before.stream == StreamState::NotSent {
            StreamState::HeadSent
        } else {
            before.stream
        }
    } else {
        StreamState::BodyStreamed
    })
    &&& after.req == before.req
    &&& after.c == before.c
    &&& after.sender == before.sender
    &&& after.tearing_down == before.tearing_down
}

impl<F> Context<F> {
    /// A context before the script ran. With `superglobals` the CGI view is
    /// materialized.
    pub fn new(req: Request, sender: Sender<Frame<F>>, superglobals: bool) -> (r: Self)
        ensures
            r.req == req,
            r.sender == Some(sender),
            r.head is None,
            r.body@ == Seq::<u8>::empty(),
            r.stream == StreamState::NotSent,
            !r.tearing_down,
            r.c is Some <==> superglobals,
            r.c matches Some(c) ==> c.materializes(req),
    {
        let c: Option<ReqC> = if superglobals {
            Some(ReqC::build(&req))
        } else {
            None
        };
        Context {
            req,
            c,
            sender: Some(sender),
            head: None,
            body: Vec::new(),
            stream: StreamState::NotSent,
            tearing_down: false,
        }
    }

    /// Whether a failure cuts the response: only when the body was already on
    /// its way.
    pub fn is_truncated(&self, errored: bool) -> (r: bool)
        ensures
            r == (errored && self.stream == StreamState::BodyStreamed),
    {
        errored && self.stream == StreamState::BodyStreamed
    }

    /// Records the head. `Status` fields set the code and never reach the
    /// client; one that cannot be read is dropped and changes nothing.
    pub fn commit_head(&mut self, status: u16, headers: FieldLines)
        ensures
            final(self).head matches Some(h) && {
                &&& h.status == committed_status(status, lines(headers@))
                &&& lines(h.headers@) == lines(headers@).filter(|l: Line| !status_line(l))
            },
            final(self).stream == StreamState::HeadSent,
            final(self).req == old(self).req,
            final(self).c == old(self).c,
            final(self).sender == old(self).sender,
            final(self).body == old(self).body,
            final(self).tearing_down == old(self).tearing_down,
    {
        let ghost all = lines(headers@);
        let ghost keep = |l: Line| !status_line(l);
        let mut code: u16 = status;
        let mut kept: FieldLines = Vec::new();
        proof {
            reveal(Seq::filter);
            assert(lines(kept@) =~= all.take(0).filter(keep));
        }
        for l in it: headers
            invariant
                all == lines(it.seq()),
                keep == (|l: Line| !status_line(l)),
                lines(kept@) == all.take(it.index() as int).filter(keep),
                code == committed_status(status, all.take(it.index() as int)),
        {
            let ghost before = kept@;
            let ghost content = line(l);
            proof {
                lemma_take_push(all, it.index() as int);
                lemma_filter_push(all.take(it.index() as int), content, keep);
                assert(all.take(it.index() as int).push(content).drop_last() =~= all.take(
                    it.index() as int,
                ));
            }
            if l.0.as_str().eq_ignore_ascii_case("status") {
                if let Some(c) = status_field_code(l.1.as_slice()) {
                    code = c;
                }
            } else {
                kept.push(l);
                assert(lines(kept@) =~= lines(before).push(content));
            }
        }
        proof {
            lemma_take_all(all);
        }
        self.head = Some(ResponseHead { status: code, headers: kept });
        self.stream = StreamState::HeadSent;
    }

    /// Seals the buffered response and gives the frames to send. A second call
    /// gives nothing.
    pub fn finish(&mut self, truncated: bool) -> (r: Option<Outgoing<F>>)
        ensures
            final(self).sender is None,
            final(self).req == old(self).req,
            final(self).c == old(self).c,
            final(self).stream == old(self).stream,
            final(self).tearing_down == old(self).tearing_down,
            r is Some <==> old(self).sender is Some,
            r is None ==> final(self).head == old(self).head && final(self).body@ == old(self).body@,
            r matches Some(out) ==> {
                &&& Some(out.sender) == old(self).sender
                &&& frames(out.frames@) == finished::<F>(
                    old(self).req.method@,
                    old(self).head,
                    old(self).body@,
                    truncated,
                )
                &&& final(self).head is None
                &&& final(self).body@ == Seq::<u8>::empty()
            },
    {
        let sender = match self.sender.take() {
            None => {
                return None;
            },
            Some(tx) => tx,
        };
        let mut body: Vec<u8> = Vec::new();
        core::mem::swap(&mut body, &mut self.body);
        let mut out: Vec<Frame<F>> = Vec::new();
        if let Some(head) = self.head.take() {
            let bodiless = head.status == 204 || head.status == 304 || (100 <= head.status
                && head.status < 200) || self.req.method.as_str().eq_ignore_ascii_case("HEAD");
            let body_coded = has_coding(&head.headers);
            let content_length: Option<u64> = if !bodiless && !truncated {
                Some(body.len() as u64)
            } else {
                None
            };
            out.push(Frame::Head { head, content_length, bodiless, body_coded });
            if body.len() > 0 {
                out.push(Frame::Chunk(bytes_from(body)));
            }
        }
        let trailers: FieldLines = Vec::new();
        assert(lines(trailers@) =~= Seq::<Line>::empty());
        out.push(Frame::End { trailers, truncated });
        assert(frames(out@) =~= finished::<F>(
            old(self).req.method@,
            old(self).head,
            old(self).body@,
            truncated,
        ));
        Some(Outgoing { sender, frames: out })
    }

    /// Records body output; an implicit head goes ahead of it when none was
    /// recorded. Output of the teardown flush does not count as streaming.
    pub fn write_output(&mut self, status: u16, data: &[u8])
        ensures
            output_kept(*old(self), *final(self), status, data@),
    {
        if self.stream == StreamState::NotSent {
            let none: FieldLines = Vec::new();
            assert(lines(none@) =~= Seq::<Line>::empty());
            self.head = Some(ResponseHead { status, headers: none });
            self.stream = StreamState::HeadSent;
        }
        self.body.extend_from_slice(data);
        assert(self.body@ =~= old(self).body@ + data@);
        if !self.tearing_down {
            self.stream = StreamState::BodyStreamed;
        }
    }

    /// Records an error head, unless a head was recorded before.
    pub fn send_error_head(&mut self, status: u16)
        ensures
            old(self).stream != StreamState::NotSent ==> *final(self) == *old(self),
            old(self).stream == StreamState::NotSent ==> {
                &&& final(self).head matches Some(h) && h.status == status && lines(h.headers@)
                    == Seq::<Line>::empty()
                &&& final(self).stream == StreamState::HeadSent
                &&& final(self).body@ == old(self).body@
                &&& final(self).req == old(self).req
                &&& final(self).c == old(self).c
                &&& final(self).sender == old(self).sender
                &&& final(self).tearing_down == old(self).tearing_down
            },
    {
        if self.stream != StreamState::NotSent {
            return ;
        }
        let none: FieldLines = Vec::new();
        assert(lines(none@) =~= Seq::<Line>::empty());
        self.head = Some(ResponseHead { status, headers: none });
        self.stream = StreamState::HeadSent;
    }

    /// Closes a response after its script ran: a failure with no head recorded
    /// becomes a 500, and a head that was recorded is never replaced. True when
    /// the response is cut.
    pub fn finalize_response(&mut self, errored: bool) -> (truncated: bool)
        ensures
            truncated == (errored && old(self).stream == StreamState::BodyStreamed),
            !errored || old(self).stream != StreamState::NotSent ==> *final(self) == *old(self),
            errored && old(self).stream == StreamState::NotSent ==> (final(self).head matches Some(
                h,
            ) && h.status == 500 && lines(h.headers@) == Seq::<Line>::empty() && final(self).body@
                == old(self).body@ && final(self).stream == StreamState::HeadSent),
            final(self).sender == old(self).sender,
            final(self).req == old(self).req,
            final(self).c == old(self).c,
            final(self).tearing_down == old(self).tearing_down,
    {
        let truncated = self.is_truncated(errored);
        if errored {
            self.send_error_head(500);
        }
        truncated
    }
}

/// A buffered response is a well-formed stream, and a length that its head
/// states is the length of its body.
pub proof fn a_buffered_response_is_well_formed<F>(
    method: Seq<char>,
    head: Option<ResponseHead>,
    body: Seq<u8>,
    truncated: bool,
)
    requires
        body.len() <= u64::MAX,
    ensures
        ({
            let s = finished::<F>(method, head, body, truncated);
            &&& well_formed(s)
            &&& phase(s) == Phase::Ended
            &&& s[0] matches FrameView::Head { content_length, .. } ==> body_len(s) == body.len()
                && (content_length matches Some(n) ==> n == body_len(s))
        }),
{
    let s = finished::<F>(method, head, body, truncated);
    let a = Seq::<FrameView<F>>::empty();
    lemma_phase_push(a, s[0]);
    lemma_total_push(a, s[0], payload::<F>());
    let b = a.push(s[0]);
    if s.len() == 1 {
        assert(s =~= b);
    } else {
        lemma_phase_push(b, s[1]);
        lemma_total_push(b, s[1], payload::<F>());
        let c = b.push(s[1]);
        if s.len() == 2 {
            assert(s =~= c);
        } else {
            lemma_phase_push(c, s[2]);
            lemma_total_push(c, s[2], payload::<F>());
            assert(s =~= c.push(s[2]));
        }
    }
}

} // verus!
