//! The channel that response frames travel on: what is offered to it, what it
//! answers, and a log of both. Only an offer to the channel gives an answer that
//! counts as one, and only an answer can be entered into the log. The same holds
//! of asking whether anybody still reads.

use tokio::sync::mpsc::error::TrySendError;
use tokio::sync::mpsc::Sender;
use vstd::prelude::*;
use crate::frames::{Frame, FrameView};

verus! {

/// The sending half of tokio's bounded channel.
#[verifier::external_type_specification]
#[verifier::external_body]
#[verifier::reject_recursive_types(T)]
pub struct ExSender<T>(tokio::sync::mpsc::Sender<T>);

/// What came of offering a frame to the channel.
#[derive(Clone, Copy, Debug, PartialEq, Eq, Structural)]
pub enum Offered {
    /// The channel has it.
    Taken,
    /// No room now.
    Full,
    /// Nobody will ever read it.
    Closed,
}

/// What a channel answered to one frame.
#[verifier::reject_recursive_types(F)]
pub struct Answer<F> {
    outcome: Offered,
    back: Option<Frame<F>>,
    frame: Ghost<FrameView<F>>,
    asked: bool,
}

/// One entry of a log: the frame, what came of it, and whether a channel was
/// asked at all.
pub struct OfferView<F> {
    pub frame: FrameView<F>,
    pub outcome: Offered,
    pub asked: bool,
}

impl<F> Answer<F> {
    /// What came of the offer.
    pub closed spec fn outcome(self) -> Offered {
        self.outcome
    }

    /// The frame that the channel handed back.
    pub closed spec fn back(self) -> Option<Frame<F>> {
        self.back
    }

    /// The frame that was offered.
    pub closed spec fn frame(self) -> FrameView<F> {
        self.frame@
    }

    /// Whether a channel gave this answer.
    pub closed spec fn asked(self) -> bool {
        self.asked
    }

    /// The answer as a log enters it.
    pub open spec fn entry(self) -> OfferView<F> {
        OfferView { frame: self.frame(), outcome: self.outcome(), asked: self.asked() }
    }

    /// A frame comes back exactly when the channel was full, and unchanged.
    /// Where no channel was asked, it counts as closed.
    pub open spec fn proper(self) -> bool {
        &&& self.outcome() == Offered::Full <==> self.back() is Some
        &&& self.back() matches Some(f) ==> f@ == self.frame()
        &&& !self.asked() ==> self.outcome() == Offered::Closed
    }
}

/// `tokio::sync::mpsc::Sender::try_send`: takes the frame, or hands it back
/// because the channel is full. On a closed channel the frame is dropped. Which
/// of the three happens rests on the receiver; the answer remembers which frame
/// the call was made with.
#[verifier::external_body]
pub(crate) fn try_send<F>(tx: &Sender<Frame<F>>, frame: Frame<F>) -> (a: Answer<F>)
    ensures
        a.frame() == frame@,
        a.asked(),
        a.outcome() == Offered::Full <==> a.back() is Some,
        a.back() matches Some(f) ==> f == frame,
{
    let ghost content = frame@;
    let (outcome, back) = match tx.try_send(frame) {
        Ok(()) => (Offered::Taken, None),
        Err(TrySendError::Full(f)) => (Offered::Full, Some(f)),
        Err(TrySendError::Closed(_)) => (Offered::Closed, None),
    };
    Answer { outcome, back, frame: Ghost(content), asked: true }
}

/// What a channel said of its receiver.
pub struct Probe {
    closed: bool,
    asked: bool,
}

/// One entry of a log of probes: whether the receiver was gone, and whether a
/// channel was asked at all.
pub struct ProbeView {
    pub closed: bool,
    pub asked: bool,
}

impl View for Probe {
    type V = ProbeView;

    closed spec fn view(&self) -> ProbeView {
        ProbeView { closed: self.closed, asked: self.asked }
    }
}

/// `tokio::sync::mpsc::Sender::is_closed`: whether the receiver is gone at this
/// moment. Which it is rests on the receiver; the probe remembers that the call
/// was made.
#[verifier::external_body]
pub(crate) fn is_closed<F>(tx: &Sender<Frame<F>>) -> (p: Probe)
    ensures
        p@.asked,
{
    Probe { closed: tx.is_closed(), asked: true }
}

/// The probe where there is no channel: nobody is known to be gone.
pub fn unprobed() -> (p: Probe)
    ensures
        p@ == (ProbeView { closed: false, asked: false }),
{
    Probe { closed: false, asked: false }
}

impl Probe {
    /// Whether the receiver was gone.
    pub fn says_closed(&self) -> (r: bool)
        ensures
            r == self@.closed,
    {
        self.closed
    }
}

/// Every probe that decided about one unit, in order.
pub struct ProbeLog {
    entries: Ghost<Seq<ProbeView>>,
}

impl View for ProbeLog {
    type V = Seq<ProbeView>;

    closed spec fn view(&self) -> Seq<ProbeView> {
        self.entries@
    }
}

impl ProbeLog {
    /// A log without entries.
    pub fn new() -> (l: ProbeLog)
        ensures
            l@ == Seq::<ProbeView>::empty(),
    {
        ProbeLog { entries: Ghost(Seq::empty()) }
    }

    /// Enters a probe, and gives what it says.
    pub fn enter(&mut self, p: Probe) -> (closed: bool)
        ensures
            final(self)@ == old(self)@.push(p@),
            closed == p@.closed,
    {
        self.entries = Ghost(self.entries@.push(p@));
        p.closed
    }
}

/// What the channels of the jobs that a worker pulled said of their receivers:
/// a running number of the probes that decided about one, and the last of them.
/// Only a probe moves the number on.
#[derive(Clone, Copy, Debug, PartialEq, Eq)]
pub struct PullRecord {
    number: u64,
    closed: bool,
    asked: bool,
}

impl PullRecord {
    /// A record without a probe.
    pub closed spec fn blank() -> PullRecord {
        PullRecord { number: 0, closed: false, asked: false }
    }

    /// The running number of the last probe; it goes round at its limit.
    pub closed spec fn number(self) -> u64 {
        self.number
    }

    /// What the last probe said.
    pub closed spec fn last(self) -> ProbeView {
        ProbeView { closed: self.closed, asked: self.asked }
    }

    /// The record with one more probe.
    pub closed spec fn noted(self, p: ProbeView) -> PullRecord {
        PullRecord {
            number: if self.number == u64::MAX {
                0
            } else {
                (self.number + 1) as u64
            },
            closed: p.closed,
            asked: p.asked,
        }
    }

    /// A record without a probe.
    pub fn new() -> (r: PullRecord)
        ensures
            r == PullRecord::blank(),
    {
        PullRecord { number: 0, closed: false, asked: false }
    }

    /// Notes a probe, and gives what it says.
    pub fn note(&mut self, p: Probe) -> (closed: bool)
        ensures
            *final(self) == old(self).noted(p@),
            final(self).last() == p@,
            closed == p@.closed,
    {
        self.number = self.number.wrapping_add(1);
        self.closed = p.closed;
        self.asked = p.asked;
        p.closed
    }
}

/// A noted probe is the last one, and no record has the number of the one
/// before it.
pub proof fn a_noted_probe_is_the_last(r: PullRecord, p: ProbeView)
    ensures
        r.noted(p).last() == p,
        r.noted(p).number() != r.number(),
        r.number() < u64::MAX ==> r.noted(p).number() == r.number() + 1,
{
}

/// The answer to a frame that there is no channel for.
pub fn unasked<F>(frame: Frame<F>) -> (a: Answer<F>)
    ensures
        a.proper(),
        a.frame() == frame@,
        !a.asked(),
{
    let ghost content = frame@;
    Answer { outcome: Offered::Closed, back: None, frame: Ghost(content), asked: false }
}

/// Everything that was offered for one unit, in order.
#[verifier::reject_recursive_types(F)]
pub struct OfferLog<F> {
    entries: Ghost<Seq<OfferView<F>>>,
}

impl<F> View for OfferLog<F> {
    type V = Seq<OfferView<F>>;

    closed spec fn view(&self) -> Seq<OfferView<F>> {
        self.entries@
    }
}

impl<F> OfferLog<F> {
    /// A log without entries.
    pub fn new() -> (l: OfferLog<F>)
        ensures
            l@ == Seq::<OfferView<F>>::empty(),
    {
        OfferLog { entries: Ghost(Seq::empty()) }
    }

    /// Enters an answer, and gives what it holds: what came of the offer, and
    /// the frame that came back.
    pub fn enter(&mut self, a: Answer<F>) -> (r: (Offered, Option<Frame<F>>))
        ensures
            final(self)@ == old(self)@.push(a.entry()),
            r.0 == a.outcome(),
            r.1 == a.back(),
    {
        self.entries = Ghost(self.entries@.push(a.entry()));
        (a.outcome, a.back)
    }
}

/// The frames that the channel took, in order.
pub open spec fn accepted<F>(log: Seq<OfferView<F>>) -> Seq<FrameView<F>>
    decreases log.len(),
{
    if log.len() == 0 {
        Seq::empty()
    } else if log.last().outcome == Offered::Taken {
        accepted(log.drop_last()).push(log.last().frame)
    } else {
        accepted(log.drop_last())
    }
}

/// The channel's answers, in order.
pub open spec fn outcomes<F>(log: Seq<OfferView<F>>) -> Seq<Offered> {
    log.map_values(|o: OfferView<F>| o.outcome)
}

/// What one more entry adds to the frames that were taken.
pub proof fn lemma_accepted_push<F>(log: Seq<OfferView<F>>, o: OfferView<F>)
    ensures
        accepted(log.push(o)) == if o.outcome == Offered::Taken {
            accepted(log).push(o.frame)
        } else {
            accepted(log)
        },
{
    assert(log.push(o).drop_last() =~= log);
}

} // verus!
