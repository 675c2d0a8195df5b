//! The exchange verbs as a script calls them: argument gates, then the write,
//! then as much delivery as the channel allows.

use vstd::prelude::*;
use crate::cycle::{counted, tracks, CycleState, Desk, DeskView, Unit};
use crate::fields::{lines, FieldLines, Line};
use crate::channel::{accepted, lemma_accepted_push, outcomes, OfferView, Offered};
use crate::frames::{
    after, body_len, frames, lemma_phase_push, well_formed, Frame, FrameView, ResponseHead,
};
use crate::headers::{
    forbidden_trailer, table_fault, table_lines, trailer_forbidden, walk_head_table, FieldFault,
    HeadTable,
};
use crate::respond::{
    body_planned, delivered, file_planned, flush_planned, gone, head_planned, looked, new_offers,
    resting, room_for, said_closed, sound, trailers_planned, Progress, Respond, RespondView, Stage,
    Verb, MAX_BUFFERED_BODY,
};
use crate::respond_laws::{
    a_flush_keeps_the_books, a_head_keeps_the_books, delivery_keeps_the_books, lemma_looked_sound,
    sending_a_file_keeps_the_books, trailers_keep_the_books, writing_a_body_keeps_the_books,
};
use crate::sendfile::FileFault;
use crate::sending::offer;
use crate::spool::{live_paths, paths, spool_paths, unlink_all};
use crate::worker_board::{sb_update, Event};

verus! {

/// Why the arguments of a verb are refused, before the unit is looked at.
#[derive(Clone, Copy, Debug, PartialEq, Eq, Structural)]
pub enum ArgFault {
    /// A status outside 100 to 599.
    Status(i64),
    /// A header table that cannot go on the wire.
    Field(FieldFault),
    /// A trailer table that cannot go on the wire.
    TrailerNotWire,
    /// A field that may not travel in a trailer section.
    TrailerForbidden,
    /// A slice that starts before the file.
    NegativeOffset,
    /// A slice of no bytes.
    EmptyLength,
}

/// What a script's exception is an instance of.
#[derive(Clone, Copy, Debug, PartialEq, Eq, Structural)]
pub enum ThrowClass {
    AlreadyFinalized,
    HeadAlreadyWritten,
    HeadNotWritten,
    ContentLengthExceeded,
    WorkDiscarded,
    FileNotSendable,
    ValueError,
    /// No more work will ever arrive.
    Closed,
    /// No work within the timeout.
    Timeout,
    /// The call belongs to a mode that this process is not in.
    NotInWorkerMode,
    Error,
}

/// What a verb's outcome throws into the script.
pub open spec fn thrown_by(v: Verb) -> Option<(ThrowClass, Seq<char>)> {
    match v {
        Verb::Accepted => None,
        Verb::Interim => None,
        Verb::Finalized => Some((ThrowClass::AlreadyFinalized, "the response already ended"@)),
        Verb::HeadWritten => Some(
            (ThrowClass::HeadAlreadyWritten, "the final head has already been written"@),
        ),
        Verb::Overflow => Some((ThrowClass::Error, "response chunk exceeds the host buffer cap"@)),
        Verb::Discarded => Some((ThrowClass::WorkDiscarded, "the host closed the exchange first"@)),
        Verb::ContentLengthExceeded => Some(
            (
                ThrowClass::ContentLengthExceeded,
                "the write goes past the content-length the head declared"@,
            ),
        ),
        Verb::BadField(f) => Some((ThrowClass::ValueError, f.text())),
        Verb::FileNotSendable(f) => Some((ThrowClass::FileNotSendable, f.text())),
        Verb::HeadNotWritten => Some(
            (ThrowClass::HeadNotWritten, "no final head has been committed yet"@),
        ),
    }
}

/// What a verb's outcome throws into the script; an accepted write and an
/// interim head throw nothing.
pub fn throw_verb(v: Verb) -> (r: Option<(ThrowClass, &'static str)>)
    ensures
        match thrown_by(v) {
            Some(t) => r matches Some(x) && x.0 == t.0 && x.1@ == t.1,
            None => r is None,
        },
{
    match v {
        Verb::Accepted => None,
        Verb::Interim => None,
        Verb::Finalized => Some((ThrowClass::AlreadyFinalized, "the response already ended")),
        Verb::HeadWritten => Some(
            (ThrowClass::HeadAlreadyWritten, "the final head has already been written"),
        ),
        Verb::Overflow => Some((ThrowClass::Error, "response chunk exceeds the host buffer cap")),
        Verb::Discarded => Some((ThrowClass::WorkDiscarded, "the host closed the exchange first")),
        Verb::ContentLengthExceeded => Some(
            (
                ThrowClass::ContentLengthExceeded,
                "the write goes past the content-length the head declared",
            ),
        ),
        Verb::BadField(f) => Some((ThrowClass::ValueError, f.message())),
        Verb::FileNotSendable(f) => Some((ThrowClass::FileNotSendable, f.message())),
        Verb::HeadNotWritten => Some(
            (ThrowClass::HeadNotWritten, "no final head has been committed yet"),
        ),
    }
}

/// The fields of a header table; no table is an empty one.
pub open spec fn flat_fields(table: Option<&HeadTable>) -> Seq<Line> {
    match table {
        Some(t) => table_lines(t@),
        None => Seq::empty(),
    }
}

/// What is wrong with a header table, if anything is.
pub open spec fn flat_fault(table: Option<&HeadTable>) -> Option<FieldFault> {
    match table {
        Some(t) => table_fault(t@),
        None => None,
    }
}

/// Whether any field may not travel in a trailer section.
pub open spec fn some_forbidden(h: Seq<Line>) -> bool {
    exists|i: int| 0 <= i < h.len() && trailer_forbidden((#[trigger] h[i]).0)
}

/// The argument gate of a status.
pub open spec fn status_accepted(status: i64) -> bool {
    100 <= status <= 599
}

/// The argument gates of `write_head`, the status first.
pub open spec fn head_fault(status: i64, table: Option<&HeadTable>) -> Option<ArgFault> {
    if !status_accepted(status) {
        Some(ArgFault::Status(status))
    } else {
        match flat_fault(table) {
            Some(f) => Some(ArgFault::Field(f)),
            None => None,
        }
    }
}

/// The argument gates of `write_trailers`.
pub open spec fn trailer_fault(table: Option<&HeadTable>) -> Option<ArgFault> {
    if flat_fault(table) is Some {
        Some(ArgFault::TrailerNotWire)
    } else if some_forbidden(flat_fields(table)) {
        Some(ArgFault::TrailerForbidden)
    } else {
        None
    }
}

impl<F> Respond<F> {
    /// Resumes a verb that a full channel or a removal of files interrupted.
    pub fn resume(&mut self, desk: &mut Desk) -> (p: Progress)
        requires
            sound(old(self)@),
        ensures
            sound(final(self)@),
            p is Done <==> resting(final(self)@),
            delivered(old(self)@, old(desk)@, (final(self)@, final(desk)@, p@)),
            final(self)@.probes == old(self)@.probes,
    {
        let ghost planned = self@;
        let ghost d = desk@;
        let p = self.advance(desk);
        proof {
            delivery_keeps_the_books(planned, d, outcomes(new_offers(planned, self@)));
        }
        p
    }

    /// Writes a head from a script's table.
    pub fn write_head(&mut self, desk: &mut Desk, status: i64, table: Option<&HeadTable>) -> (r:
        Result<Progress, ArgFault>)
        requires
            sound(old(self)@),
            resting(old(self)@),
        ensures
            sound(final(self)@),
            head_fault(status, table) matches Some(f) ==> r == Err::<Progress, ArgFault>(f)
                && final(self)@ == old(self)@ && final(desk)@ == old(desk)@,
            head_fault(status, table) is None ==> (r matches Ok(p) && {
                &&& p is Done <==> resting(final(self)@)
                &&& ({
                    let closed = said_closed(old(self)@, final(self)@);
                    delivered(
                        head_planned(
                            looked(old(self)@, closed),
                            closed,
                            status as u16,
                            flat_fields(table),
                        ),
                        old(desk)@,
                        (final(self)@, final(desk)@, p@),
                    )
                })
            }),
    {
        if status < 100 || status > 599 {
            return Err(ArgFault::Status(status));
        }
        let flat: FieldLines = match walk_head_table(table) {
            Ok(flat) => flat,
            Err(fault) => {
                return Err(ArgFault::Field(fault));
            },
        };
        let closed = self.look();
        proof {
            lemma_looked_sound(old(self)@, closed);
            a_head_keeps_the_books(self@, closed, status as u16, lines(flat@));
        }
        assert(lines(flat@) == flat_fields(table));
        self.write_head_core(closed, status as u16, flat);
        Ok(self.resume(desk))
    }

    /// Writes body bytes; `eos` ends the response with them.
    pub fn write_body(&mut self, desk: &mut Desk, data: &[u8], eos: bool) -> (p: Progress)
        requires
            sound(old(self)@),
            resting(old(self)@),
            data@.len() <= MAX_BUFFERED_BODY ==> room_for(old(self)@, data@.len()),
        ensures
            sound(final(self)@),
            p is Done <==> resting(final(self)@),
            ({
                let closed = said_closed(old(self)@, final(self)@);
                delivered(
                    body_planned(looked(old(self)@, closed), closed, data@, eos),
                    old(desk)@,
                    (final(self)@, final(desk)@, p@),
                )
            }),
    {
        let closed = self.look();
        proof {
            lemma_looked_sound(old(self)@, closed);
            writing_a_body_keeps_the_books(self@, closed, data@, eos);
        }
        self.write_body_core(closed, data, eos);
        self.resume(desk)
    }

    /// Sends a file slice; see `send_file_core`.
    pub fn send_file(
        &mut self,
        desk: &mut Desk,
        opened: Result<(F, u64), FileFault>,
        offset: u64,
        eos: bool,
    ) -> (p: Progress)
        requires
            sound(old(self)@),
            resting(old(self)@),
            opened matches Ok(o) ==> room_for(old(self)@, o.1 as nat),
        ensures
            sound(final(self)@),
            p is Done <==> resting(final(self)@),
            ({
                let closed = said_closed(old(self)@, final(self)@);
                delivered(
                    file_planned(looked(old(self)@, closed), closed, opened, offset, eos),
                    old(desk)@,
                    (final(self)@, final(desk)@, p@),
                )
            }),
    {
        let closed = self.look();
        proof {
            lemma_looked_sound(old(self)@, closed);
            sending_a_file_keeps_the_books(self@, closed, opened, offset, eos);
        }
        self.send_file_core(closed, opened, offset, eos);
        self.resume(desk)
    }

    /// Ends the response with trailers from a script's table.
    pub fn write_trailers(&mut self, desk: &mut Desk, table: Option<&HeadTable>) -> (r: Result<
        Progress,
        ArgFault,
    >)
        requires
            sound(old(self)@),
            resting(old(self)@),
        ensures
            sound(final(self)@),
            trailer_fault(table) matches Some(f) ==> r == Err::<Progress, ArgFault>(f)
                && final(self)@ == old(self)@ && final(desk)@ == old(desk)@,
            trailer_fault(table) is None ==> (r matches Ok(p) && {
                &&& p is Done <==> resting(final(self)@)
                &&& ({
                    let closed = said_closed(old(self)@, final(self)@);
                    delivered(
                        trailers_planned(looked(old(self)@, closed), closed, flat_fields(table)),
                        old(desk)@,
                        (final(self)@, final(desk)@, p@),
                    )
                })
            }),
    {
        let flat: FieldLines = match walk_head_table(table) {
            Ok(flat) => flat,
            Err(_) => {
                return Err(ArgFault::TrailerNotWire);
            },
        };
        for i in 0..flat.len()
            invariant
                flat_fault(table) is None,
                lines(flat@) == flat_fields(table),
                forall|k: int| 0 <= k < i ==> !trailer_forbidden((#[trigger] lines(flat@)[k]).0),
                *self == *old(self),
                *desk == *old(desk),
                sound(old(self)@),
        {
            if forbidden_trailer(flat[i].0.as_str()) {
                assert(trailer_forbidden(lines(flat@)[i as int].0));
                return Err(ArgFault::TrailerForbidden);
            }
            assert(!trailer_forbidden(lines(flat@)[i as int].0));
        }
        let closed = self.look();
        proof {
            lemma_looked_sound(old(self)@, closed);
            trailers_keep_the_books(self@, closed, lines(flat@));
        }
        self.write_trailers_core(closed, flat);
        Ok(self.resume(desk))
    }

    /// Puts the head on the stream if it is not there yet.
    pub fn flush(&mut self, desk: &mut Desk) -> (p: Progress)
        requires
            sound(old(self)@),
            resting(old(self)@),
        ensures
            sound(final(self)@),
            p is Done <==> resting(final(self)@),
            ({
                let closed = said_closed(old(self)@, final(self)@);
                delivered(
                    flush_planned(looked(old(self)@, closed), closed),
                    old(desk)@,
                    (final(self)@, final(desk)@, p@),
                )
            }),
    {
        let closed = self.look();
        proof {
            lemma_looked_sound(old(self)@, closed);
            a_flush_keeps_the_books(self@, closed);
        }
        self.flush_core(closed);
        self.resume(desk)
    }

    /// Whether the outcome is committed, by the worker or by a host that closed
    /// the channel, given what the channel said.
    pub fn outcome_committed(&self, closed: bool) -> (r: bool)
        ensures
            r == (self@.stage == Stage::Finalized || (self@.open && closed)),
    {
        self.stage == Stage::Finalized || (self.sender.is_some() && closed)
    }

    /// Whether the outcome is committed, by the worker or by a host that closed
    /// the channel. A read-only probe.
    pub fn is_finalized(&self) -> (r: bool)
        ensures
            self@.stage == Stage::Finalized ==> r,
            r ==> self@.stage == Stage::Finalized || self@.open,
    {
        let closed = self.probe();
        self.outcome_committed(closed)
    }

    /// Whether the host closed the exchange first. A read-only probe.
    pub fn is_cancelled(&self) -> (r: bool)
        ensures
            self@.discarded ==> r,
            r ==> exists|closed: bool| gone(self@, closed),
            self@.stage == Stage::Finalized ==> r == self@.discarded,
    {
        let closed = self.probe();
        let r = self.host_closed(closed);
        assert(r ==> gone(self@, closed));
        r
    }
}

/// What the host says for a unit that its script dropped unfinalized: a complete
/// 500 when nothing reached the wire, a truncated end otherwise. A unit that
/// dies with its cycle gets nothing: the channel dies unsent, and the front
/// reports the worker's death.
pub open spec fn last_words<F>(r: RespondView<F>, cycle_died: bool) -> Seq<FrameView<F>> {
    if r.stage == Stage::Finalized || cycle_died || !r.open {
        Seq::empty()
    } else if r.head_sent {
        seq![FrameView::End { trailers: Seq::empty(), truncated: true }]
    } else {
        seq![
            FrameView::Head {
                status: 500,
                fields: Seq::empty(),
                content_length: if r.bodiless {
                    None
                } else {
                    Some(0)
                },
                bodiless: r.bodiless,
                body_coded: false,
            },
            FrameView::End { trailers: Seq::empty(), truncated: false },
        ]
    }
}

/// A unit before and after `words` were said for it: they were offered in order
/// up to the first that the channel did not take, and the sending half is closed.
pub open spec fn spoken<F>(
    before: RespondView<F>,
    words: Seq<FrameView<F>>,
    after: RespondView<F>,
) -> bool {
    let offers = new_offers(before, after);
    let refused = offers.len() > 0 && offers.last().outcome != Offered::Taken;
    let taken = if refused {
        offers.len() - 1
    } else {
        offers.len() as int
    };
    &&& before.offers.is_prefix_of(after.offers)
    &&& offers.len() <= words.len()
    &&& !refused ==> offers.len() == words.len()
    &&& forall|i: int|
        0 <= i < offers.len() ==> (#[trigger] offers[i]).frame == words[i] && offers[i].asked
    &&& forall|i: int| 0 <= i < taken ==> (#[trigger] offers[i]).outcome == Offered::Taken
    &&& after == RespondView {
        open: false,
        sent: before.sent + words.take(taken),
        offers: after.offers,
        ..before
    }
}

/// A desk after unit `id` was dropped: no longer tracked, and counted as failed
/// unless it had been finalized, and so counted, before.
pub open spec fn abandoned_desk(d: DeskView, id: u64, finalized: bool) -> DeskView {
    let freed = DeskView {
        cycle: CycleState {
            unit: if tracks(d.cycle.unit, id) {
                Unit::Idle
            } else {
                d.cycle.unit
            },
            ..d.cycle
        },
        ..d
    };
    if finalized {
        freed
    } else {
        counted(freed, true)
    }
}

/// Whoever ends a unit, it is counted once: dropping it after its end touches
/// no counter, and dropping it before counts one failed unit.
pub proof fn dropping_a_unit_counts_it_at_most_once(d: DeskView, id: u64)
    ensures
        abandoned_desk(d, id, true).board == d.board,
        abandoned_desk(d, id, false).board == counted(d, true).board,
        !tracks(abandoned_desk(d, id, true).cycle.unit, id),
        !tracks(abandoned_desk(d, id, false).cycle.unit, id),
{
}

impl<F> Respond<F> {
    /// Drops unit `id`: it is no longer tracked, it is counted as failed unless
    /// it was finalized, and its spool files are handed out for removal, which
    /// comes before `last_rites`.
    pub fn abandon(&mut self, desk: &mut Desk, id: u64) -> (gone: Vec<Vec<u8>>)
        ensures
            paths(gone@) == live_paths(old(self)@.spools),
            final(self)@ == (RespondView { spools: Seq::empty(), ..old(self)@ }),
            final(desk)@ == abandoned_desk(
                old(desk)@,
                id,
                old(self)@.stage == Stage::Finalized,
            ),
    {
        desk.cycle.untrack(id);
        if self.stage != Stage::Finalized {
            sb_update(&mut desk.board, Event::Handled(true), 0);
        }
        let gone = unlink_all(&mut self.spools);
        assert(spool_paths(self.spools@) =~= Seq::<Seq<u8>>::empty());
        gone
    }

    /// The frames that the host says for an abandoned unit.
    pub fn last_frames(&self, cycle_died: bool) -> (r: Vec<Frame<F>>)
        ensures
            frames(r@) == last_words(self@, cycle_died),
    {
        let mut r: Vec<Frame<F>> = Vec::new();
        let none: FieldLines = Vec::new();
        assert(lines(none@) =~= Seq::<Line>::empty());
        if self.stage == Stage::Finalized || cycle_died || self.sender.is_none() {
            assert(frames(r@) =~= last_words(self@, cycle_died));
            return r;
        }
        if self.head_sent {
            r.push(Frame::End { trailers: none, truncated: true });
            assert(frames(r@) =~= last_words(self@, cycle_died));
            return r;
        }
        let content_length: Option<u64> = if self.bodiless {
            None
        } else {
            Some(0)
        };
        let bodiless = self.bodiless;
        r.push(
            Frame::Head {
                head: ResponseHead { status: 500, headers: none },
                content_length,
                bodiless,
                body_coded: false,
            },
        );
        let none: FieldLines = Vec::new();
        assert(lines(none@) =~= Seq::<Line>::empty());
        r.push(Frame::End { trailers: none, truncated: false });
        assert(frames(r@) =~= last_words(self@, cycle_died));
        r
    }

    /// Best effort: offers an abandoned unit's last words in order, up to the
    /// first that the channel does not take, and closes the sending half.
    pub fn last_rites(&mut self, cycle_died: bool) -> (answers: Vec<Offered>)
        ensures
            spoken(old(self)@, last_words(old(self)@, cycle_died), final(self)@),
            answers@ == outcomes(new_offers(old(self)@, final(self)@)),
    {
        let ghost r0 = self@;
        let ghost words = last_words(self@, cycle_died);
        let ghost log = self.log@;
        let ghost mut made: Seq<OfferView<F>> = Seq::empty();
        let mut answers: Vec<Offered> = Vec::new();
        let mut rest = self.last_frames(cycle_died);
        let sender = self.sender.take();
        let ghost spent = *self;
        assert(frames(rest@) =~= words.skip(0));
        assert(self.log@ =~= log + made);
        assert(r0.sent + words.take(0) =~= r0.sent);
        while rest.len() > 0
            invariant
                made.len() <= words.len(),
                frames(rest@) == words.skip(made.len() as int),
                words.len() > 0 ==> sender is Some,
                forall|i: int|
                    0 <= i < made.len() ==> #[trigger] made[i] == (OfferView {
                        frame: words[i],
                        outcome: Offered::Taken,
                        asked: true,
                    }),
                answers@ == outcomes(made),
                self.log@ == log + made,
                accepted(self.log@) == r0.sent + words.take(made.len() as int),
                *self == (Respond { log: self.log, ..spent }),
                spent@ == (RespondView { open: false, ..r0 }),
                r0 == old(self)@,
                log == r0.offers,
                words == last_words(r0, cycle_died),
            decreases rest.len(),
        {
            let ghost k = made.len() as int;
            let ghost before = rest@;
            assert(frames(before).len() == words.len() - k);
            assert(frames(before)[0] == words.skip(k)[0]);
            let frame = rest.remove(0);
            assert(frames(rest@) =~= frames(before).drop_first());
            assert(frames(rest@) =~= words.skip(k + 1));
            let a = offer(&sender, frame);
            let ghost entry = a.entry();
            proof {
                lemma_accepted_push(self.log@, entry);
            }
            let (o, _back): (Offered, Option<Frame<F>>) = self.log.enter(a);
            answers.push(o);
            assert(self.log@ =~= log + made.push(entry));
            assert(answers@ =~= outcomes(made.push(entry)));
            if o != Offered::Taken {
                proof {
                    let offers = new_offers(r0, self@);
                    assert(offers =~= made.push(entry));
                    assert(log =~= self.log@.subrange(0, log.len() as int));
                }
                return answers;
            }
            proof {
                made = made.push(entry);
                assert(r0.sent + words.take(k + 1) =~= (r0.sent + words.take(k)).push(words[k]));
            }
        }
        proof {
            assert(frames(rest@).len() == 0);
            assert(made.len() == words.len());
            assert(new_offers(r0, self@) =~= made);
            assert(log =~= self.log@.subrange(0, log.len() as int));
        }
        answers
    }
}

/// A dropped unit leaves a well-formed stream: never an implicit response, and a
/// truncated end whenever a head had gone out.
pub proof fn a_dropped_unit_leaves_a_sound_stream<F>(r: RespondView<F>, cycle_died: bool, n: int)
    requires
        sound(r),
        resting(r),
        0 <= n <= last_words(r, cycle_died).len(),
    ensures
        well_formed(r.sent + last_words(r, cycle_died).take(n)),
        body_len(r.sent + last_words(r, cycle_died).take(n)) == body_len(r.sent),
{
    let words = last_words(r, cycle_died);
    assert(r.outbox =~= Seq::empty());
    assert(r.sent + r.outbox =~= r.sent);
    if n == 0 {
        assert(r.sent + words.take(0) =~= r.sent);
    } else {
        let one = r.sent.push(words[0]);
        lemma_phase_push(r.sent, words[0]);
        crate::seqs::lemma_total_push(r.sent, words[0], crate::frames::payload::<F>());
        if n == 1 {
            assert(r.sent + words.take(1) =~= one);
        } else {
            lemma_phase_push(one, words[1]);
            crate::seqs::lemma_total_push(one, words[1], crate::frames::payload::<F>());
            assert(r.sent + words.take(2) =~= one.push(words[1]));
        }
    }
}

} // verus!
