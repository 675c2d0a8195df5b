//! The response verbs of an exchange: what a write, a flush or an end puts on
//! the response stream, and how the unit is concluded.
//!
//! A verb first plans the frames it owes; `advance` then offers them to the
//! channel one by one. A full channel stops it with `Progress::Full`, and the
//! caller resumes it later. Spool files are handed out for removal before the
//! end of the stream is offered.

use tokio::sync::mpsc::Sender;
use vstd::prelude::*;
use crate::channel::{
    accepted, lemma_accepted_push, outcomes, Answer, OfferLog, OfferView, Offered, Probe,
    ProbeLog, ProbeView,
};
use crate::cycle::{conclude, concluded_desk, counted, Desk, DeskView};
use crate::fields::{copy_range, lines, FieldLines, Line};
use crate::frames::{
    body_frame, body_len, bytes_copy, frames, framing_kept, phase, well_formed, Frame, FrameView,
    Phase, ResponseHead,
};
use crate::headers::{
    coded, framing_length, length_line, not_framing, split_framing, strip_framing, FieldFault,
};
use crate::spool::{live_paths, paths, spool_paths, unlink_all, SpooledFile};
use crate::sendfile::FileFault;
use crate::sending::{offer, probe};

verus! {

/// The most bytes the host holds in flight for a single write.
pub const MAX_BUFFERED_BODY: usize = 67_108_864;

/// Response progress. The head locks on the first head or body write.
#[derive(Clone, Copy, Debug, PartialEq, Eq, Structural)]
pub enum Stage {
    Open,
    HeadCommitted,
    Finalized,
}

/// Verb outcomes.
#[derive(Clone, Copy, Debug, PartialEq, Eq, Structural)]
pub enum Verb {
    Accepted,
    /// Advisory 1xx head, emitted.
    Interim,
    Finalized,
    HeadWritten,
    Overflow,
    /// The host closed the exchange first.
    Discarded,
    ContentLengthExceeded,
    BadField(FieldFault),
    /// The file cannot be sent; nothing was written.
    FileNotSendable(FileFault),
    /// Trailers may only end a response with a committed final head.
    HeadNotWritten,
}

/// A committed final head that is not on the stream yet.
pub struct PendingHead {
    pub status: u16,
    pub headers: FieldLines,
    pub body_coded: bool,
}

/// How a unit ends.
pub enum Ending {
    /// The worker finished.
    Seal { trailers: FieldLines, truncated: bool },
    /// The host got there first.
    Discard,
}

/// What is still owed once the outbox is empty.
pub enum Plan {
    /// Nothing: no verb is under way.
    Rest,
    /// A verb is under way. `strict`: a closed channel discards the unit;
    /// otherwise the rest of the outbox is dropped and the ending goes on.
    Run { ending: Option<Ending>, strict: bool, verb: Verb },
    /// The unit is concluded and its end is to be offered. `patient`: a full
    /// channel is waited for.
    Farewell { trailers: FieldLines, truncated: bool, patient: bool, verb: Verb },
}

/// The response side of an exchange.
#[verifier::reject_recursive_types(F)]
pub struct Respond<F> {
    pub stage: Stage,
    /// The head frame left for the channel.
    pub head_sent: bool,
    pub pending: Option<PendingHead>,
    /// A head-declared content-length, honoured and then enforced.
    pub declared_cl: Option<u64>,
    /// Bytes accepted toward `declared_cl`; bodiless units count too.
    pub sent_body: u64,
    /// The host closed the exchange first; sticky.
    pub discarded: bool,
    /// 204, 304, 101 or a HEAD request: chunks are accepted and dropped.
    pub bodiless: bool,
    /// Spooled uploads that live until the unit is concluded.
    pub spools: Vec<SpooledFile>,
    pub sender: Option<Sender<Frame<F>>>,
    /// Frames that the verb under way still has to offer.
    pub outbox: Vec<Frame<F>>,
    pub plan: Plan,
    /// Every offer that was made to the channel.
    pub log: OfferLog<F>,
    /// What the channel said whenever a verb began.
    pub probes: ProbeLog,
}

/// What came of working off a verb.
pub enum Progress {
    /// The verb is through.
    Done(Verb),
    /// The channel is full: resume when there may be room.
    Full,
    /// Remove these files, then resume.
    Unlink(Vec<Vec<u8>>),
}

/// The content of a pending head.
pub struct PendingView {
    pub status: u16,
    pub fields: Seq<Line>,
    pub body_coded: bool,
}

/// The content of an `Ending`.
pub enum EndingView {
    Seal { trailers: Seq<Line>, truncated: bool },
    Discard,
}

/// The content of a `Plan`.
pub enum PlanView {
    Rest,
    Run { ending: Option<EndingView>, strict: bool, verb: Verb },
    Farewell { trailers: Seq<Line>, truncated: bool, patient: bool, verb: Verb },
}

/// The content of a `Respond`.
pub struct RespondView<F> {
    pub stage: Stage,
    pub head_sent: bool,
    pub pending: Option<PendingView>,
    pub declared_cl: Option<u64>,
    pub sent_body: u64,
    pub discarded: bool,
    pub bodiless: bool,
    pub spools: Seq<Seq<u8>>,
    /// Whether the sending half is still held.
    pub open: bool,
    pub outbox: Seq<FrameView<F>>,
    pub plan: PlanView,
    /// Every frame that the channel has taken.
    pub sent: Seq<FrameView<F>>,
    /// Every offer that was made to the channel.
    pub offers: Seq<OfferView<F>>,
    /// What the channel said whenever a verb began.
    pub probes: Seq<ProbeView>,
}

/// The content of a `Progress`.
pub enum ProgressView {
    Done(Verb),
    Full,
    Unlink(Seq<Seq<u8>>),
}

impl View for PendingHead {
    type V = PendingView;

    open spec fn view(&self) -> PendingView {
        PendingView {
            status: self.status,
            fields: lines(self.headers@),
            body_coded: self.body_coded,
        }
    }
}

impl View for Ending {
    type V = EndingView;

    open spec fn view(&self) -> EndingView {
        match *self {
            Ending::Seal { trailers, truncated } => EndingView::Seal {
                trailers: lines(trailers@),
                truncated,
            },
            Ending::Discard => EndingView::Discard,
        }
    }
}

impl View for Plan {
    type V = PlanView;

    open spec fn view(&self) -> PlanView {
        match *self {
            Plan::Rest => PlanView::Rest,
            Plan::Run { ending, strict, verb } => PlanView::Run {
                ending: match ending {
                    Some(e) => Some(e@),
                    None => None,
                },
                strict,
                verb,
            },
            Plan::Farewell { trailers, truncated, patient, verb } => PlanView::Farewell {
                trailers: lines(trailers@),
                truncated,
                patient,
                verb,
            },
        }
    }
}

impl View for Progress {
    type V = ProgressView;

    open spec fn view(&self) -> ProgressView {
        match *self {
            Progress::Done(v) => ProgressView::Done(v),
            Progress::Full => ProgressView::Full,
            Progress::Unlink(p) => ProgressView::Unlink(paths(p@)),
        }
    }
}

impl<F> View for Respond<F> {
    type V = RespondView<F>;

    open spec fn view(&self) -> RespondView<F> {
        RespondView {
            stage: self.stage,
            head_sent: self.head_sent,
            pending: match self.pending {
                Some(p) => Some(p@),
                None => None,
            },
            declared_cl: self.declared_cl,
            sent_body: self.sent_body,
            discarded: self.discarded,
            bodiless: self.bodiless,
            spools: spool_paths(self.spools@),
            open: self.sender is Some,
            outbox: frames(self.outbox@),
            plan: self.plan@,
            sent: accepted(self.log@),
            offers: self.log@,
            probes: self.probes@,
        }
    }
}

/// The host is gone and the worker has not finalized; `closed` is what the
/// channel said just now.
pub open spec fn gone<F>(r: RespondView<F>, closed: bool) -> bool {
    r.discarded || (r.stage != Stage::Finalized && r.open && closed)
}

/// The unit with what the channel said at the start of a verb on record.
pub open spec fn looked<F>(r: RespondView<F>, closed: bool) -> RespondView<F> {
    RespondView { probes: r.probes.push(ProbeView { closed, asked: r.open }), ..r }
}

/// What the channel said at the start of the verb that led from one state of a
/// unit to another.
pub open spec fn said_closed<F>(before: RespondView<F>, after: RespondView<F>) -> bool {
    after.probes[before.probes.len() as int].closed
}

/// The head frame that leaves when the response starts: the committed head, or
/// an implicit 200 without fields. A declared content-length always wins;
/// `computed` is the length of a response that ends with this write, and a
/// bodiless response never gets one.
pub open spec fn head_frame<F>(r: RespondView<F>, computed: Option<u64>) -> FrameView<F> {
    FrameView::Head {
        status: match r.pending {
            Some(p) => p.status,
            None => 200,
        },
        fields: match r.pending {
            Some(p) => p.fields,
            None => Seq::empty(),
        },
        content_length: if r.bodiless || r.declared_cl is Some {
            r.declared_cl
        } else {
            computed
        },
        bodiless: r.bodiless,
        body_coded: match r.pending {
            Some(p) => p.body_coded,
            None => false,
        },
    }
}

/// The response with its head on the way, once.
pub open spec fn headed<F>(r: RespondView<F>, computed: Option<u64>) -> RespondView<F> {
    if r.head_sent {
        r
    } else {
        RespondView {
            head_sent: true,
            pending: None,
            stage: if r.stage == Stage::Open {
                Stage::HeadCommitted
            } else {
                r.stage
            },
            outbox: r.outbox.push(head_frame(r, computed)),
            ..r
        }
    }
}

/// A verb that owes nothing more than its outcome.
pub open spec fn answered<F>(r: RespondView<F>, verb: Verb) -> RespondView<F> {
    RespondView { plan: PlanView::Run { ending: None, strict: true, verb }, ..r }
}

/// A verb that a gone host cuts short: the unit is discarded, at most once.
pub open spec fn cut_short<F>(r: RespondView<F>) -> RespondView<F> {
    RespondView {
        plan: PlanView::Run {
            ending: if r.stage == Stage::Finalized {
                None
            } else {
                Some(EndingView::Discard)
            },
            strict: true,
            verb: Verb::Discarded,
        },
        ..r
    }
}

/// A verb that ends the response by itself, whatever becomes of its frames.
pub open spec fn ended<F>(r: RespondView<F>, truncated: bool, verb: Verb) -> RespondView<F> {
    RespondView {
        plan: PlanView::Run {
            ending: Some(EndingView::Seal { trailers: Seq::empty(), truncated }),
            strict: false,
            verb,
        },
        ..r
    }
}

/// A verb that went well and, with `eos`, ends the response.
pub open spec fn carried<F>(
    r: RespondView<F>,
    eos: bool,
    trailers: Seq<Line>,
) -> RespondView<F> {
    RespondView {
        plan: PlanView::Run {
            ending: if eos {
                Some(EndingView::Seal { trailers, truncated: false })
            } else {
                None
            },
            strict: true,
            verb: Verb::Accepted,
        },
        ..r
    }
}

/// A body frame on the way, unless it carries nothing or the response has no
/// body.
pub open spec fn with_body<F>(r: RespondView<F>, f: FrameView<F>, len: nat) -> RespondView<F> {
    if len > 0 && !r.bodiless {
        RespondView { outbox: r.outbox.push(f), ..r }
    } else {
        r
    }
}

/// The unit's byte count can hold `len` more bytes; a declared length caps what
/// is counted.
pub open spec fn room_for<F>(r: RespondView<F>, len: nat) -> bool {
    r.declared_cl is Some || r.sent_body + len <= u64::MAX
}

/// The part of a body frame that fits `fit` bytes.
pub open spec fn fitting<F>(f: FrameView<F>, fit: nat) -> FrameView<F> {
    match f {
        FrameView::Chunk(b) => FrameView::Chunk(b.take(fit as int)),
        FrameView::File { file, offset, len } => FrameView::File { file, offset, len: fit as u64 },
        _ => f,
    }
}

/// Writing `len` body bytes that frame `f` carries: the head goes ahead of the
/// first of them; what goes past a declared content-length is cut off, and the
/// response then completes per its declaration.
pub open spec fn body_written<F>(
    r: RespondView<F>,
    f: FrameView<F>,
    len: nat,
    eos: bool,
) -> RespondView<F> {
    if r.declared_cl matches Some(cl) && r.sent_body + len > cl {
        let cl = r.declared_cl->0;
        let fit = (cl - r.sent_body) as nat;
        ended(
            RespondView {
                sent_body: cl,
                ..with_body(headed(r, Some(cl)), fitting(f, fit), fit)
            },
            false,
            Verb::ContentLengthExceeded,
        )
    } else {
        let computed = if eos && r.sent_body == 0 {
            Some(len as u64)
        } else {
            None
        };
        carried(
            RespondView {
                sent_body: (r.sent_body + len) as u64,
                ..with_body(headed(r, computed), f, len)
            },
            eos,
            Seq::empty(),
        )
    }
}

/// What `write_body_core` plans.
pub open spec fn body_planned<F>(
    r: RespondView<F>,
    closed: bool,
    data: Seq<u8>,
    eos: bool,
) -> RespondView<F> {
    if gone(r, closed) {
        cut_short(r)
    } else if r.stage == Stage::Finalized {
        answered(r, Verb::Finalized)
    } else if data.len() == 0 && !eos {
        answered(r, Verb::Accepted)
    } else if data.len() > MAX_BUFFERED_BODY {
        ended(headed(r, None), true, Verb::Overflow)
    } else {
        body_written(r, FrameView::Chunk(data), data.len(), eos)
    }
}

/// What `send_file_core` plans, for what came of opening the file.
pub open spec fn file_planned<F>(
    r: RespondView<F>,
    closed: bool,
    opened: Result<(F, u64), FileFault>,
    offset: u64,
    eos: bool,
) -> RespondView<F> {
    if gone(r, closed) {
        cut_short(r)
    } else if r.stage == Stage::Finalized {
        answered(r, Verb::Finalized)
    } else {
        match opened {
            Err(fault) => answered(r, Verb::FileNotSendable(fault)),
            Ok((file, len)) => body_written(
                r,
                FrameView::File { file, offset, len },
                len as nat,
                eos,
            ),
        }
    }
}

/// What `write_trailers_core` plans. A bodiless response has no trailer section
/// either.
pub open spec fn trailers_planned<F>(
    r: RespondView<F>,
    closed: bool,
    trailers: Seq<Line>,
) -> RespondView<F> {
    if gone(r, closed) {
        cut_short(r)
    } else if r.stage == Stage::Finalized {
        answered(r, Verb::Finalized)
    } else if r.stage == Stage::Open {
        answered(r, Verb::HeadNotWritten)
    } else {
        carried(
            headed(r, Some(r.sent_body)),
            true,
            if r.bodiless {
                Seq::empty()
            } else {
                trailers
            },
        )
    }
}

/// What `flush_core` plans.
pub open spec fn flush_planned<F>(r: RespondView<F>, closed: bool) -> RespondView<F> {
    if gone(r, closed) {
        cut_short(r)
    } else if r.stage == Stage::Finalized {
        answered(r, Verb::Finalized)
    } else {
        answered(headed(r, None), Verb::Accepted)
    }
}

/// A status that announces an interim head: any 1xx but 101, which ends the
/// HTTP conversation and counts as final.
pub open spec fn interim_status(status: u16) -> bool {
    100 <= status < 200 && status != 101
}

/// A length as the plan stores it.
pub open spec fn as_length(n: Option<nat>) -> Option<u64> {
    match n {
        Some(n) => Some(n as u64),
        None => None,
    }
}

/// What `write_head_core` plans.
pub open spec fn head_planned<F>(
    r: RespondView<F>,
    closed: bool,
    status: u16,
    fields: Seq<Line>,
) -> RespondView<F> {
    if gone(r, closed) {
        cut_short(r)
    } else if r.stage != Stage::Open {
        answered(r, Verb::HeadWritten)
    } else if interim_status(status) {
        answered(
            RespondView {
                outbox: r.outbox.push(
                    FrameView::Interim {
                        status,
                        fields: fields.filter(|l: Line| not_framing(l)),
                    },
                ),
                ..r
            },
            Verb::Interim,
        )
    } else if fields.filter(|l: Line| length_line(l)).len() > 1 {
        answered(r, Verb::BadField(FieldFault::LengthRepeats))
    } else {
        let kept = fields.filter(|l: Line| not_framing(l));
        answered(
            RespondView {
                declared_cl: as_length(framing_length(fields)),
                pending: Some(PendingView { status, fields: kept, body_coded: coded(kept) }),
                bodiless: r.bodiless || status == 204 || status == 304 || status == 101,
                stage: Stage::HeadCommitted,
                ..r
            },
            Verb::Accepted,
        )
    }
}

/// The unit's books are balanced: what every verb starts from and leaves behind.
pub open spec fn sound<F>(r: RespondView<F>) -> bool {
    let stream = r.sent + r.outbox;
    // the stream
    &&& well_formed(stream)
    &&& framing_kept(stream)
    &&& body_len(stream) <= r.sent_body
    &&& running(r) && !r.bodiless ==> body_len(stream) == r.sent_body
    &&& r.bodiless ==> forall|k: int| 0 <= k < stream.len() ==> !body_frame(#[trigger] stream[k])
    &&& !r.head_sent ==> phase(stream) != Phase::Body && r.sent_body == 0
    &&& phase(stream) == Phase::Ended ==> r.stage == Stage::Finalized && !(r.plan is Farewell)
    &&& r.head_sent && running(r) ==> phase(stream) == Phase::Body
    &&& running(r) ==> head_frames_agree(r)
    // the stage
    &&& r.stage == Stage::Open ==> !r.head_sent && r.pending is None && r.declared_cl is None
    &&& r.pending is Some ==> !r.head_sent
    &&& r.declared_cl matches Some(cl) ==> r.sent_body <= cl
    &&& r.discarded ==> r.stage == Stage::Finalized
    &&& r.stage != Stage::Finalized ==> r.open
    // the verb under way
    &&& r.stage == Stage::Finalized ==> {
        &&& r.outbox.len() == 0
        &&& r.spools.len() == 0
        &&& r.plan matches PlanView::Run { ending, .. } ==> ending is None
    }
    &&& r.plan is Rest ==> r.outbox.len() == 0
    &&& r.plan matches PlanView::Run { ending, strict, .. } ==> (ending is None ==> strict)
    &&& r.plan is Farewell ==> r.stage == Stage::Finalized
}

/// More may follow on the stream than its end.
pub open spec fn running<F>(r: RespondView<F>) -> bool {
    r.stage != Stage::Finalized && (r.plan matches PlanView::Run { ending, .. } ==> ending is None)
}

/// A head on the stream states the declared length and nothing else.
pub open spec fn head_frames_agree<F>(r: RespondView<F>) -> bool {
    let stream = r.sent + r.outbox;
    forall|k: int|
        0 <= k < stream.len() ==> (#[trigger] stream[k] matches FrameView::Head {
            content_length,
            bodiless,
            ..
        } ==> content_length == r.declared_cl && bodiless == r.bodiless)
}

/// No verb is under way.
pub open spec fn resting<F>(r: RespondView<F>) -> bool {
    r.plan is Rest
}

impl<F> Respond<F> {
    /// The response side of a fresh unit.
    pub fn new(sender: Option<Sender<Frame<F>>>, bodiless: bool, spools: Vec<SpooledFile>) -> (r: Self)
        ensures
            r@ == (RespondView::<F> {
                stage: Stage::Open,
                head_sent: false,
                pending: None,
                declared_cl: None,
                sent_body: 0,
                discarded: false,
                bodiless,
                spools: spool_paths(spools@),
                open: sender is Some,
                outbox: Seq::empty(),
                plan: PlanView::Rest,
                sent: Seq::empty(),
                offers: Seq::empty(),
                probes: Seq::empty(),
            }),
            r.sender == sender,
            sender is Some ==> sound(r@),
    {
        let outbox: Vec<Frame<F>> = Vec::new();
        assert(frames(outbox@) =~= Seq::<FrameView<F>>::empty());
        assert(Seq::<FrameView<F>>::empty() + Seq::<FrameView<F>>::empty() =~= Seq::<
            FrameView<F>,
        >::empty());
        Respond {
            stage: Stage::Open,
            head_sent: false,
            pending: None,
            declared_cl: None,
            sent_body: 0,
            discarded: false,
            bodiless,
            spools,
            sender,
            outbox,
            plan: Plan::Rest,
            log: OfferLog::new(),
            probes: ProbeLog::new(),
        }
    }

    /// Asks the channel whether the receiving half is gone.
    pub(crate) fn asked(&self) -> (p: Probe)
        ensures
            p@.asked == (self.sender is Some),
            !p@.asked ==> !p@.closed,
    {
        probe(&self.sender)
    }

    /// Whether the receiving half is gone, as far as the sender still held can
    /// tell.
    pub(crate) fn probe(&self) -> (r: bool)
        ensures
            self.sender is None ==> !r,
    {
        self.asked().says_closed()
    }

    /// Asks the channel, as a verb begins, whether the receiving half is gone.
    pub fn look(&mut self) -> (closed: bool)
        ensures
            final(self)@ == looked(old(self)@, closed),
            !old(self)@.open ==> !closed,
            final(self).sender == old(self).sender,
    {
        let p = probe(&self.sender);
        self.probes.enter(p)
    }

    /// The host is gone and the worker has not finalized, given what the channel
    /// said.
    pub fn host_closed(&self, closed: bool) -> (r: bool)
        ensures
            r == gone(self@, closed),
    {
        self.discarded || (self.stage != Stage::Finalized && self.sender.is_some() && closed)
    }

    fn answer(&mut self, verb: Verb)
        ensures
            final(self)@ == answered(old(self)@, verb),
    {
        self.plan = Plan::Run { ending: None, strict: true, verb };
    }

    fn cut_short(&mut self)
        ensures
            final(self)@ == cut_short(old(self)@),
    {
        let ending: Option<Ending> = if self.stage == Stage::Finalized {
            None
        } else {
            Some(Ending::Discard)
        };
        self.plan = Plan::Run { ending, strict: true, verb: Verb::Discarded };
    }

    fn end(&mut self, truncated: bool, verb: Verb)
        ensures
            final(self)@ == ended(old(self)@, truncated, verb),
    {
        let trailers: FieldLines = Vec::new();
        assert(lines(trailers@) =~= Seq::<Line>::empty());
        self.plan = Plan::Run { ending: Some(Ending::Seal { trailers, truncated }), strict: false, verb };
    }

    fn carry(&mut self, eos: bool, trailers: FieldLines)
        ensures
            final(self)@ == carried(old(self)@, eos, lines(trailers@)),
    {
        let ending: Option<Ending> = if eos {
            Some(Ending::Seal { trailers, truncated: false })
        } else {
            None
        };
        self.plan = Plan::Run { ending, strict: true, verb: Verb::Accepted };
    }

    fn queue(&mut self, frame: Frame<F>)
        ensures
            final(self)@ == (RespondView { outbox: old(self)@.outbox.push(frame@), ..old(self)@ }),
    {
        self.outbox.push(frame);
        assert(frames(self.outbox@) =~= frames(old(self).outbox@).push(frame@));
    }

    /// Queues the committed head (an implicit 200 when none), once.
    pub fn emit_head(&mut self, computed: Option<u64>)
        ensures
            final(self)@ == headed(old(self)@, computed),
    {
        if self.head_sent {
            return ;
        }
        let content_length: Option<u64> = if self.bodiless || self.declared_cl.is_some() {
            self.declared_cl
        } else {
            computed
        };
        let (status, headers, body_coded): (u16, FieldLines, bool) = match self.pending.take() {
            Some(p) => (p.status, p.headers, p.body_coded),
            None => {
                let none: FieldLines = Vec::new();
                assert(lines(none@) =~= Seq::<Line>::empty());
                (200, none, false)
            },
        };
        if self.stage == Stage::Open {
            self.stage = Stage::HeadCommitted;
        }
        self.head_sent = true;
        let bodiless = self.bodiless;
        self.queue(
            Frame::Head {
                head: ResponseHead { status, headers },
                content_length,
                bodiless,
                body_coded,
            },
        );
    }

    /// Plans a head: an interim one goes out at once; a final one is committed
    /// and leaves with the first body-touching verb.
    pub fn write_head_core(&mut self, closed: bool, status: u16, headers: FieldLines)
        ensures
            final(self)@ == head_planned(old(self)@, closed, status, lines(headers@)),
    {
        if self.host_closed(closed) {
            self.cut_short();
            return ;
        }
        if self.stage != Stage::Open {
            self.answer(Verb::HeadWritten);
            return ;
        }
        if status != 101 && 100 <= status && status < 200 {
            let headers = strip_framing(headers);
            self.queue(Frame::Interim(ResponseHead { status, headers }));
            self.answer(Verb::Interim);
            return ;
        }
        let split = match split_framing(headers) {
            Ok(split) => split,
            Err(fault) => {
                self.answer(Verb::BadField(fault));
                return ;
            },
        };
        self.declared_cl = split.declared_cl;
        self.pending = Some(
            PendingHead { status, headers: split.headers, body_coded: split.body_coded },
        );
        if status == 204 || status == 304 || status == 101 {
            self.bodiless = true;
        }
        self.stage = Stage::HeadCommitted;
        self.answer(Verb::Accepted);
    }

    /// Plans a body write. An empty one without `eos` does nothing. One above
    /// the host's cap ends the response as truncated, so that the unit concludes.
    pub fn write_body_core(&mut self, closed: bool, data: &[u8], eos: bool)
        requires
            sound(old(self)@),
            data@.len() <= MAX_BUFFERED_BODY ==> room_for(old(self)@, data@.len()),
        ensures
            final(self)@ == body_planned(old(self)@, closed, data@, eos),
    {
        if self.host_closed(closed) {
            self.cut_short();
            return ;
        }
        if self.stage == Stage::Finalized {
            self.answer(Verb::Finalized);
            return ;
        }
        let len: usize = data.len();
        if len == 0 && !eos {
            self.answer(Verb::Accepted);
            return ;
        }
        if len > MAX_BUFFERED_BODY {
            self.emit_head(None);
            self.end(true, Verb::Overflow);
            return ;
        }
        let len64: u64 = len as u64;
        if let Some(cl) = self.declared_cl {
            if len64 > cl - self.sent_body {
                let fit: u64 = cl - self.sent_body;
                self.emit_head(Some(cl));
                if fit > 0 && !self.bodiless {
                    let part = copy_range(data, 0, fit as usize);
                    assert(part@ =~= data@.take(fit as int));
                    self.queue(Frame::Chunk(bytes_copy(part.as_slice())));
                }
                self.sent_body = cl;
                self.end(false, Verb::ContentLengthExceeded);
                return ;
            }
        }
        let computed: Option<u64> = if eos && self.sent_body == 0 {
            Some(len64)
        } else {
            None
        };
        self.emit_head(computed);
        self.sent_body = self.sent_body + len64;
        if len > 0 && !self.bodiless {
            self.queue(Frame::Chunk(bytes_copy(data)));
        }
        let trailers: FieldLines = Vec::new();
        assert(lines(trailers@) =~= Seq::<Line>::empty());
        self.carry(eos, trailers);
    }

    /// Plans sending a file slice; `opened` is the open file and the slice's
    /// length, or why there is none. Nothing is opened for a unit that
    /// `send_file_admitted` turns away.
    pub fn send_file_core(
        &mut self,
        closed: bool,
        opened: Result<(F, u64), FileFault>,
        offset: u64,
        eos: bool,
    )
        requires
            sound(old(self)@),
            opened matches Ok(o) ==> room_for(old(self)@, o.1 as nat),
        ensures
            final(self)@ == file_planned(old(self)@, closed, opened, offset, eos),
    {
        if self.host_closed(closed) {
            self.cut_short();
            return ;
        }
        if self.stage == Stage::Finalized {
            self.answer(Verb::Finalized);
            return ;
        }
        let (file, len): (F, u64) = match opened {
            Ok(opened) => opened,
            Err(fault) => {
                self.answer(Verb::FileNotSendable(fault));
                return ;
            },
        };
        if let Some(cl) = self.declared_cl {
            if len > cl - self.sent_body {
                let fit: u64 = cl - self.sent_body;
                self.emit_head(Some(cl));
                if fit > 0 && !self.bodiless {
                    self.queue(Frame::File { file, offset, len: fit });
                }
                self.sent_body = cl;
                self.end(false, Verb::ContentLengthExceeded);
                return ;
            }
        }
        let computed: Option<u64> = if eos && self.sent_body == 0 {
            Some(len)
        } else {
            None
        };
        self.emit_head(computed);
        self.sent_body = self.sent_body + len;
        if len > 0 && !self.bodiless {
            self.queue(Frame::File { file, offset, len });
        }
        let trailers: FieldLines = Vec::new();
        assert(lines(trailers@) =~= Seq::<Line>::empty());
        self.carry(eos, trailers);
    }

    /// Whether the unit's byte count can hold `len` more bytes.
    pub fn has_room(&self, len: u64) -> (r: bool)
        ensures
            r == room_for(self@, len as nat),
    {
        self.declared_cl.is_some() || self.sent_body <= u64::MAX - len
    }

    /// Whether a file slice may still be sent at all.
    pub fn send_file_admitted(&self, closed: bool) -> (r: bool)
        ensures
            r == (!gone(self@, closed) && self@.stage != Stage::Finalized),
    {
        !self.host_closed(closed) && self.stage != Stage::Finalized
    }

    /// Plans trailers, which end a response whose final head is committed.
    pub fn write_trailers_core(&mut self, closed: bool, trailers: FieldLines)
        ensures
            final(self)@ == trailers_planned(old(self)@, closed, lines(trailers@)),
    {
        if self.host_closed(closed) {
            self.cut_short();
            return ;
        }
        if self.stage == Stage::Finalized {
            self.answer(Verb::Finalized);
            return ;
        }
        if self.stage == Stage::Open {
            self.answer(Verb::HeadNotWritten);
            return ;
        }
        let so_far: u64 = self.sent_body;
        self.emit_head(Some(so_far));
        let trailers: FieldLines = if self.bodiless {
            let none: FieldLines = Vec::new();
            assert(lines(none@) =~= Seq::<Line>::empty());
            none
        } else {
            trailers
        };
        self.carry(true, trailers);
    }

    /// Plans a flush: the head leaves if it has not yet; a repeat puts nothing
    /// on the stream.
    pub fn flush_core(&mut self, closed: bool)
        ensures
            final(self)@ == flush_planned(old(self)@, closed),
    {
        if self.host_closed(closed) {
            self.cut_short();
            return ;
        }
        if self.stage == Stage::Finalized {
            self.answer(Verb::Finalized);
            return ;
        }
        self.emit_head(None);
        self.answer(Verb::Accepted);
    }
}

/// A verb is under way that a closed channel turns into a discard.
pub open spec fn strict_run<F>(r: RespondView<F>) -> bool {
    r.plan matches PlanView::Run { strict, .. } && strict
}

/// The unit after the channel answered the first frame of its outbox.
pub open spec fn settled<F>(r: RespondView<F>, o: Offered) -> RespondView<F> {
    match o {
        Offered::Full => r,
        Offered::Taken => RespondView {
            outbox: r.outbox.drop_first(),
            sent: r.sent.push(r.outbox[0]),
            ..r
        },
        Offered::Closed => RespondView {
            // a write counts from its head on: nothing does where that is lost
            sent_body: if strict_run(r) && r.outbox[0] is Head {
                0
            } else {
                r.sent_body
            },
            outbox: Seq::empty(),
            plan: match r.plan {
                PlanView::Run { strict: true, .. } => PlanView::Run {
                    ending: Some(EndingView::Discard),
                    strict: true,
                    verb: Verb::Discarded,
                },
                _ => r.plan,
            },
            ..r
        },
    }
}

/// Whether an ending is the worker's own.
pub open spec fn by_worker(e: EndingView) -> bool {
    e is Seal
}

/// Whether an ending cuts the response off.
pub open spec fn cuts(e: EndingView) -> bool {
    match e {
        EndingView::Seal { truncated, .. } => truncated,
        EndingView::Discard => true,
    }
}

/// The unit with its books closed and its end yet to be offered. The end of a
/// discarded unit is a courtesy: a full channel is not waited for.
pub open spec fn concluded<F>(r: RespondView<F>) -> RespondView<F> {
    match r.plan {
        PlanView::Run { ending: Some(e), verb, .. } => RespondView {
            stage: Stage::Finalized,
            discarded: r.discarded || e is Discard,
            spools: Seq::empty(),
            plan: PlanView::Farewell {
                trailers: match e {
                    EndingView::Seal { trailers, .. } => trailers,
                    EndingView::Discard => Seq::empty(),
                },
                truncated: cuts(e),
                patient: by_worker(e),
                verb,
            },
            ..r
        },
        _ => r,
    }
}

/// The desk with the unit's ending counted.
pub open spec fn concluding_desk<F>(r: RespondView<F>, d: DeskView) -> DeskView {
    match r.plan {
        PlanView::Run { ending: Some(e), .. } => concluded_desk(d, cuts(e), by_worker(e)),
        _ => d,
    }
}

/// The end that a concluded unit offers.
pub open spec fn end_frame<F>(r: RespondView<F>) -> FrameView<F> {
    match r.plan {
        PlanView::Farewell { trailers, truncated, .. } => FrameView::End { trailers, truncated },
        _ => arbitrary(),
    }
}

/// The unit after its end was offered: the stream is closed for good.
pub open spec fn parted<F>(r: RespondView<F>, o: Offered) -> RespondView<F> {
    RespondView {
        plan: PlanView::Rest,
        open: false,
        sent: if o == Offered::Taken {
            r.sent.push(end_frame(r))
        } else {
            r.sent
        },
        ..r
    }
}

/// How much a unit still has to work off.
pub open spec fn rank<F>(r: RespondView<F>) -> nat {
    4 * r.outbox.len() + match r.plan {
        PlanView::Rest => 0nat,
        PlanView::Run { ending, .. } => if ending is Some {
            3nat
        } else {
            1nat
        },
        PlanView::Farewell { .. } => 2nat,
    }
}

/// The frame that is to be offered next: the first of the outbox, or the end of
/// a concluded unit.
pub open spec fn due<F>(r: RespondView<F>) -> Option<FrameView<F>> {
    if r.outbox.len() > 0 {
        Some(r.outbox[0])
    } else if r.plan is Farewell {
        Some(end_frame(r))
    } else {
        None
    }
}

/// A concluded unit has nothing but its end left to offer.
pub open spec fn tidy<F>(r: RespondView<F>) -> bool {
    r.plan is Farewell ==> r.outbox.len() == 0
}

/// The unit while the frame that is due is out for an offer.
pub open spec fn lifted<F>(r: RespondView<F>) -> RespondView<F> {
    if r.outbox.len() > 0 {
        RespondView { outbox: r.outbox.drop_first(), ..r }
    } else {
        match r.plan {
            PlanView::Farewell { truncated, patient, verb, .. } => RespondView {
                plan: PlanView::Farewell { trailers: Seq::empty(), truncated, patient, verb },
                ..r
            },
            _ => r,
        }
    }
}

/// The unit with frame `f` back in the place that it was lifted from.
pub open spec fn restored<F>(r: RespondView<F>, f: FrameView<F>) -> RespondView<F> {
    match (r.plan, f) {
        (
            PlanView::Farewell { patient, verb, .. },
            FrameView::End { trailers, truncated },
        ) => RespondView {
            plan: PlanView::Farewell { trailers, truncated, patient, verb },
            ..r
        },
        _ => RespondView { outbox: seq![f] + r.outbox, ..r },
    }
}

/// The unit with the channel's answer to the frame that is due on record.
pub open spec fn logged<F>(r: RespondView<F>, o: Offered) -> RespondView<F> {
    RespondView {
        offers: r.offers.push(OfferView { frame: due(r)->0, outcome: o, asked: r.open }),
        ..r
    }
}

/// Whether a full channel is waited for.
pub open spec fn waits<F>(r: RespondView<F>) -> bool {
    r.outbox.len() > 0 || (r.plan matches PlanView::Farewell { patient, .. } && patient)
}

/// The unit after the channel answered the frame that was due.
pub open spec fn heard<F>(r: RespondView<F>, o: Offered) -> RespondView<F> {
    if o == Offered::Full && waits(r) {
        logged(r, o)
    } else if r.outbox.len() > 0 {
        settled(logged(r, o), o)
    } else {
        parted(logged(r, o), o)
    }
}

/// Working off a verb, given what the channel answers to each offer in turn.
/// When the answers run out the verb is interrupted.
pub open spec fn worked_off<F>(
    r: RespondView<F>,
    d: DeskView,
    answers: Seq<Offered>,
) -> (RespondView<F>, DeskView, ProgressView)
    decreases rank(r),
{
    if due(r) is Some {
        if answers.len() == 0 {
            (r, d, ProgressView::Full)
        } else if answers[0] == Offered::Full && waits(r) {
            (heard(r, answers[0]), d, ProgressView::Full)
        } else {
            match r.plan {
                PlanView::Farewell { verb, .. } if r.outbox.len() == 0 => (
                    heard(r, answers[0]),
                    d,
                    ProgressView::Done(verb),
                ),
                _ => worked_off(heard(r, answers[0]), d, answers.drop_first()),
            }
        }
    } else {
        match r.plan {
            PlanView::Run { ending: None, verb, .. } => (
                RespondView { plan: PlanView::Rest, ..r },
                d,
                ProgressView::Done(verb),
            ),
            PlanView::Run { ending: Some(_), .. } => if live_paths(r.spools).len() > 0 {
                (
                    concluded(r),
                    concluding_desk(r, d),
                    ProgressView::Unlink(live_paths(r.spools)),
                )
            } else {
                worked_off(concluded(r), concluding_desk(r, d), answers)
            },
            _ => (r, d, ProgressView::Done(Verb::Accepted)),
        }
    }
}

/// The offers that were made on the way from one state of a unit to a later one.
pub open spec fn new_offers<F>(before: RespondView<F>, after: RespondView<F>) -> Seq<OfferView<F>> {
    after.offers.skip(before.offers.len() as int)
}

/// The answers that the channel gave on the way lead from a planned verb to its
/// outcome, and a verb is interrupted only by a channel that said it was full.
pub open spec fn delivered<F>(
    planned: RespondView<F>,
    d: DeskView,
    outcome: (RespondView<F>, DeskView, ProgressView),
) -> bool {
    let offers = new_offers(planned, outcome.0);
    &&& planned.offers.is_prefix_of(outcome.0.offers)
    &&& worked_off(planned, d, outcomes(offers)) == outcome
    &&& outcome.2 is Full ==> offers.len() > 0 && offers.last().outcome == Offered::Full
        && offers.last().asked
}

/// How a loop that works off a verb stands: what is left to do from `(r, d)` is
/// what was left to do from `(r0, d0)` after the offers made since.
spec fn under_way<F>(
    r0: RespondView<F>,
    d0: DeskView,
    r: RespondView<F>,
    d: DeskView,
) -> bool {
    &&& r0.offers.is_prefix_of(r.offers)
    &&& forall|rest: Seq<Offered>|
        #[trigger] worked_off(r0, d0, outcomes(new_offers(r0, r)) + rest) == worked_off(r, d, rest)
}

/// Nothing was offered yet.
proof fn lemma_under_way_at_first<F>(r: RespondView<F>, d: DeskView)
    ensures
        under_way(r, d, r, d),
{
    assert forall|rest: Seq<Offered>|
        #[trigger] worked_off(r, d, outcomes(new_offers(r, r)) + rest) == worked_off(
            r,
            d,
            rest,
        ) by {
        assert(outcomes(new_offers(r, r)) + rest =~= rest);
    }
}

/// One more answer.
proof fn lemma_one_more_answer<F>(
    r0: RespondView<F>,
    d0: DeskView,
    r: RespondView<F>,
    d: DeskView,
    o: Offered,
)
    requires
        under_way(r0, d0, r, d),
        due(r) is Some,
    ensures
        ({
            let h = heard(r, o);
            let offers = new_offers(r0, h);
            &&& r0.offers.is_prefix_of(h.offers)
            &&& offers.len() > 0
            &&& offers.last() == (OfferView { frame: due(r)->0, outcome: o, asked: r.open })
            &&& worked_off(r0, d0, outcomes(offers)) == worked_off(r, d, seq![o])
            &&& !(o == Offered::Full && waits(r)) && r.outbox.len() > 0 ==> under_way(r0, d0, h, d)
        }),
{
    let h = heard(r, o);
    let before = new_offers(r0, r);
    let offers = new_offers(r0, h);
    let entry = OfferView { frame: due(r)->0, outcome: o, asked: r.open };
    assert(h.offers =~= r.offers.push(entry));
    assert(offers =~= before.push(entry));
    assert(r0.offers =~= h.offers.subrange(0, r0.offers.len() as int));
    assert(outcomes(offers) =~= outcomes(before) + seq![o]);
    if !(o == Offered::Full && waits(r)) && r.outbox.len() > 0 {
        assert forall|rest: Seq<Offered>|
            #[trigger] worked_off(r0, d0, outcomes(offers) + rest) == worked_off(h, d, rest) by {
            let more = seq![o] + rest;
            assert(outcomes(offers) + rest =~= outcomes(before) + more);
            assert(more.drop_first() =~= rest);
            assert(more[0] == o);
            assert(worked_off(r, d, more) == worked_off(heard(r, o), d, more.drop_first()));
        }
    }
}

/// A verb that needs no further answer is where its loop has brought it.
proof fn lemma_no_more_answers<F>(
    r0: RespondView<F>,
    d0: DeskView,
    r: RespondView<F>,
    d: DeskView,
)
    requires
        under_way(r0, d0, r, d),
    ensures
        worked_off(r0, d0, outcomes(new_offers(r0, r))) == worked_off(r, d, Seq::empty()),
{
    let answers = outcomes(new_offers(r0, r));
    assert(answers + Seq::<Offered>::empty() =~= answers);
    assert(worked_off(r0, d0, answers + Seq::<Offered>::empty()) == worked_off(
        r,
        d,
        Seq::empty(),
    ));
}

impl<F> Respond<F> {
    /// Takes out the frame that is to be offered next: the first of the outbox,
    /// or the end of a concluded unit. `settle` puts an untaken one back.
    pub fn next_offer(&mut self) -> (f: Option<Frame<F>>)
        ensures
            match due(old(self)@) {
                Some(d) => f matches Some(x) && x@ == d,
                None => f is None,
            },
            final(self)@ == lifted(old(self)@),
            final(self).sender == old(self).sender,
    {
        if self.outbox.len() > 0 {
            assert(self@.outbox.len() > 0);
            let frame: Frame<F> = self.outbox.remove(0);
            assert(frames(self.outbox@) =~= frames(old(self).outbox@).drop_first());
            return Some(frame);
        }
        assert(self@.outbox.len() == 0);
        let mut plan: Plan = Plan::Rest;
        core::mem::swap(&mut plan, &mut self.plan);
        match plan {
            Plan::Farewell { trailers, truncated, patient, verb } => {
                let none: FieldLines = Vec::new();
                assert(lines(none@) =~= Seq::<Line>::empty());
                self.plan = Plan::Farewell { trailers: none, truncated, patient, verb };
                Some(Frame::End { trailers, truncated })
            },
            plan => {
                self.plan = plan;
                None
            },
        }
    }

    /// Takes the channel's answer to the frame that `next_offer` gave: a frame
    /// that a full channel handed back returns to its place, unless it is the
    /// end of a discarded unit. `head` says whether it was the final head.
    pub fn settle(&mut self, a: Answer<F>, head: bool) -> (o: Offered)
        requires
            a.proper(),
            head == (a.frame() is Head),
            a.asked() == old(self)@.open,
            old(self)@.plan is Farewell ==> old(self)@.outbox.len() == 0 && a.frame() is End,
        ensures
            o == a.outcome(),
            final(self)@ == heard(restored(old(self)@, a.frame()), a.outcome()),
    {
        let ghost before = restored(self@, a.frame());
        let ghost f = a.frame();
        proof {
            lemma_accepted_push(self.log@, a.entry());
            if !(self@.plan is Farewell) {
                assert(before.outbox[0] == f);
                assert(before.outbox.drop_first() =~= self@.outbox);
            }
            assert(due(before) == Some(f));
        }
        let (o, back): (Offered, Option<Frame<F>>) = self.log.enter(a);
        let parting: Option<(bool, Verb)> = match &self.plan {
            Plan::Farewell { patient, verb, .. } => Some((*patient, *verb)),
            _ => None,
        };
        if let Some((patient, verb)) = parting {
            if patient {
                if let Some(Frame::End { trailers, truncated }) = back {
                    self.plan = Plan::Farewell { trailers, truncated, patient, verb };
                    return o;
                }
            }
            self.plan = Plan::Rest;
            self.sender = None;
            return o;
        }
        match o {
            Offered::Full => {
                if let Some(f) = back {
                    self.outbox.insert(0, f);
                }
                assert(frames(self.outbox@) =~= before.outbox);
            },
            Offered::Taken => {},
            Offered::Closed => {
                self.outbox = Vec::new();
                assert(frames(self.outbox@) =~= Seq::<FrameView<F>>::empty());
                let strict = match &self.plan {
                    Plan::Run { strict, .. } => *strict,
                    _ => false,
                };
                if strict {
                    if head {
                        self.sent_body = 0;
                    }
                    self.plan = Plan::Run {
                        ending: Some(Ending::Discard),
                        strict: true,
                        verb: Verb::Discarded,
                    };
                }
            },
        }
        o
    }

    /// Offers the frame that is due. Without a sender the channel counts as
    /// closed; with one, the answer rests on the receiver.
    fn offer_next(&mut self) -> (o: Offered)
        requires
            due(old(self)@) is Some,
            tidy(old(self)@),
        ensures
            final(self)@ == heard(old(self)@, o),
            !old(self)@.open ==> o == Offered::Closed,
    {
        let ghost before = self@;
        match self.next_offer() {
            Some(frame) => {
                let head = frame.is_head();
                let a = offer(&self.sender, frame);
                proof {
                    let r = restored(self@, a.frame());
                    assert(r.outbox =~= before.outbox);
                    assert(r == before);
                }
                self.settle(a, head)
            },
            None => Offered::Closed,
        }
    }

    /// Closes the unit's books: spool paths are handed out for removal, the
    /// desk counts the unit, and only its end is still to be offered.
    fn close_books(&mut self, desk: &mut Desk, ending: Ending, verb: Verb) -> (r: Vec<Vec<u8>>)
        ensures
            ({
                let planned = RespondView {
                    plan: PlanView::Run { ending: Some(ending@), strict: true, verb },
                    ..old(self)@
                };
                &&& final(self)@ == concluded(planned)
                &&& final(desk)@ == concluding_desk(planned, old(desk)@)
            }),
            paths(r@) == live_paths(old(self)@.spools),
    {
        let r = unlink_all(&mut self.spools);
        assert(spool_paths(self.spools@) =~= Seq::<Seq<u8>>::empty());
        self.stage = Stage::Finalized;
        match ending {
            Ending::Seal { trailers, truncated } => {
                conclude(desk, truncated, true);
                self.plan = Plan::Farewell { trailers, truncated, patient: true, verb };
            },
            Ending::Discard => {
                self.discarded = true;
                conclude(desk, true, false);
                let trailers: FieldLines = Vec::new();
                assert(lines(trailers@) =~= Seq::<Line>::empty());
                self.plan = Plan::Farewell { trailers, truncated: true, patient: false, verb };
            },
        }
        r
    }

    /// Works off the verb under way until it is through, the channel is full or
    /// files are to be removed. Which answers the channel gives rests on the
    /// receiver; for every run of answers the outcome is `worked_off`.
    pub fn advance(&mut self, desk: &mut Desk) -> (p: Progress)
        requires
            tidy(old(self)@),
        ensures
            delivered(old(self)@, old(desk)@, (final(self)@, final(desk)@, p@)),
    {
        let ghost r0 = self@;
        let ghost d0 = desk@;
        proof {
            lemma_under_way_at_first(r0, d0);
        }
        loop
            invariant
                under_way(r0, d0, self@, desk@),
                tidy(self@),
                r0 == old(self)@,
                d0 == old(desk)@,
            decreases rank(self@),
        {
            let ghost here = (self@, desk@);
            let parting: Option<(bool, Verb)> = match &self.plan {
                Plan::Farewell { patient, verb, .. } => Some((*patient, *verb)),
                _ => None,
            };
            if self.outbox.len() > 0 {
                assert(self@.outbox.len() > 0);
                let o = self.offer_next();
                proof {
                    lemma_one_more_answer(r0, d0, here.0, here.1, o);
                    assert(seq![o][0] == o);
                }
                if o == Offered::Full {
                    return Progress::Full;
                }
            } else if let Some((patient, verb)) = parting {
                assert(self@.outbox.len() == 0);
                let o = self.offer_next();
                proof {
                    lemma_one_more_answer(r0, d0, here.0, here.1, o);
                    assert(seq![o][0] == o);
                }
                if o == Offered::Full && patient {
                    return Progress::Full;
                }
                return Progress::Done(verb);
            } else {
                assert(self@.outbox.len() == 0);
                let mut plan: Plan = Plan::Rest;
                core::mem::swap(&mut plan, &mut self.plan);
                match plan {
                    Plan::Run { ending: None, strict, verb } => {
                        proof {
                            lemma_no_more_answers(r0, d0, here.0, here.1);
                            assert(new_offers(r0, self@) == new_offers(r0, here.0));
                        }
                        return Progress::Done(verb);
                    },
                    Plan::Run { ending: Some(ending), strict, verb } => {
                        let ghost e = ending@;
                        assert(here.0.plan == PlanView::Run { ending: Some(e), strict, verb });
                        let gone = self.close_books(desk, ending, verb);
                        assert(self@ == concluded(here.0));
                        assert(desk@ == concluding_desk(here.0, here.1));
                        assert(new_offers(r0, self@) == new_offers(r0, here.0));
                        if gone.len() > 0 {
                            proof {
                                assert(paths(gone@).len() > 0);
                                lemma_no_more_answers(r0, d0, here.0, here.1);
                            }
                            return Progress::Unlink(gone);
                        }
                        assert(paths(gone@).len() == 0);
                        assert(under_way(r0, d0, self@, desk@)) by {
                            assert forall|rest: Seq<Offered>|
                                #[trigger] worked_off(
                                    r0,
                                    d0,
                                    outcomes(new_offers(r0, self@)) + rest,
                                ) == worked_off(self@, desk@, rest) by {
                                assert(worked_off(here.0, here.1, rest) == worked_off(
                                    self@,
                                    desk@,
                                    rest,
                                ));
                            }
                        }
                    },
                    _ => {
                        proof {
                            lemma_no_more_answers(r0, d0, here.0, here.1);
                            assert(new_offers(r0, self@) == new_offers(r0, here.0));
                        }
                        return Progress::Done(Verb::Accepted);
                    },
                }
            }
        }
    }
}

} // verus!
