//! What a script may ask of a verb, how its unit is counted, and what the host
//! says where the script does not.

use vstd::prelude::*;
use crate::channel::Offered;
use crate::cycle::{DeskView, Unit};
use crate::fields::ascii_text;
use crate::frames::FrameView;
use crate::head_laws::{ready, went_through};
use crate::headers::{
    carriable, field_value_byte, item_sendable, table_fault, table_lines, tchar, token,
    trailer_forbidden, FieldFault, HeadTable, TableEntry, TableItem, TableKey,
};
use crate::respond::{
    concluded, concluding_desk, due, heard, rank, worked_off, PlanView, ProgressView, RespondView,
    Stage, Verb,
};
use crate::respond_laws::{called, countable, ends_by_worker, lemma_called, Call};
use crate::spool::live_paths;
use crate::stream_laws::{finds_reader, reader_stays, stepped, worked_through, Step};
use crate::text::same_name;
use crate::verbs::{
    abandoned_desk, flat_fields, head_fault, last_words, thrown_by, trailer_fault, ArgFault,
    ThrowClass,
};
use crate::worker_board::{recorded, Event};

verus! {

proof fn lemma_delivery_counts<F>(r: RespondView<F>, d: DeskView, answers: Seq<Offered>)
    requires
        ends_by_worker(r),
        forall|i: int| 0 <= i < answers.len() ==> answers[i] != Offered::Closed,
    ensures
        ({
            let (after, desk, p) = worked_off(r, d, answers);
            &&& concluding_desk(after, desk) == concluding_desk(r, d)
            &&& p is Done ==> desk == concluding_desk(r, d)
            &&& !(p is Done) ==> ends_by_worker(after)
        }),
    decreases rank(r),
{
    if due(r) is Some {
        if answers.len() > 0 && r.outbox.len() > 0 && answers[0] != Offered::Full {
            lemma_delivery_counts(heard(r, answers[0]), d, answers.drop_first());
        }
    } else {
        match r.plan {
            PlanView::Run { ending: Some(_), .. } => {
                if live_paths(r.spools).len() == 0 {
                    lemma_delivery_counts(concluded(r), concluding_desk(r, d), answers);
                }
            },
            _ => {},
        }
    }
}

proof fn lemma_through_counts<F>(r: RespondView<F>, d: DeskView, rounds: Seq<Seq<Offered>>)
    requires
        ends_by_worker(r),
        reader_stays(rounds),
        worked_through(r, d, rounds).2 is Done,
    ensures
        worked_through(r, d, rounds).1 == concluding_desk(r, d),
    decreases rounds.len(),
{
    if rounds.len() > 0 {
        assert forall|k: int| 0 <= k < rounds[0].len() implies rounds[0][k] != Offered::Closed by {}
        let (after, desk, p) = worked_off(r, d, rounds[0]);
        lemma_delivery_counts(r, d, rounds[0]);
        if !(p is Done) {
            let rest = rounds.drop_first();
            assert forall|i: int, k: int|
                0 <= i < rest.len() && 0 <= k < rest[i].len() implies #[trigger] rest[i][k]
                != Offered::Closed by {
                assert(rounds[i + 1][k] != Offered::Closed);
            }
            lemma_through_counts(after, desk, rest);
        }
    }
}

/// A desk with a unit concluded by its worker: counted once, as failed or not;
/// the unit is no longer out, and the cycle has served.
pub open spec fn served_desk(before: DeskView, after: DeskView, failed: bool) -> bool {
    &&& after.board == recorded(before.board, Event::Handled(failed), 0)
    &&& after.cycle.served
    &&& after.cycle.received == before.cycle.received
    &&& after.cycle.closed_seen == before.cycle.closed_seen
    &&& after.cycle.unit == match before.cycle.unit {
        Unit::Handling(p) => Unit::Sealed(p),
        other => other,
    }
}

/// The call that ends a response is the one that counts the unit, as handled
/// well unless the response was cut; every other call counts nothing.
pub proof fn a_unit_counts_when_its_response_ends<F>(r: RespondView<F>, d: DeskView, s: Step<F>)
    requires
        ready(r),
        went_through(r, d, s),
        !(s.call is Resume),
    ensures
        ({
            let (after, desk, p) = stepped(r, d, s);
            let ended = r.stage != Stage::Finalized && after.stage == Stage::Finalized;
            &&& !ended ==> desk == d
            &&& ended ==> served_desk(d, desk, p == ProgressView::Done(Verb::Overflow))
        }),
{
    reveal(stepped);
    let y = called(r, s.call);
    lemma_called(r, s.call);
    assert(r.outbox =~= Seq::empty());
    crate::stream_laws::lemma_through(y, d, s.rounds);
    lemma_through_counts(y, d, s.rounds);
}

/// A call that finds its host gone discards the unit: nothing of what it was
/// asked for goes out, the stream is offered an end that says it was cut, and
/// the unit counts as failed, not as served. Spool files are handed out first.
pub proof fn a_gone_host_discards_the_unit<F>(
    r: RespondView<F>,
    d: DeskView,
    c: Call<F>,
    answer: Offered,
)
    requires
        ready(r),
        r.stage != Stage::Finalized,
        match c {
            Call::Head { closed, .. } => closed,
            Call::Body { closed, .. } => closed,
            Call::File { closed, .. } => closed,
            Call::Trailers { closed, .. } => closed,
            Call::Flush { closed } => closed,
            Call::Resume => false,
        },
    ensures
        ({
            let (after, desk, p) = worked_off(called(r, c), d, seq![answer]);
            &&& after.stage == Stage::Finalized && after.discarded
            &&& after.pending == r.pending && after.head_sent == r.head_sent
            &&& desk.board == recorded(d.board, Event::Handled(true), 0)
            &&& desk.cycle.served == d.cycle.served
            &&& live_paths(r.spools).len() > 0 ==> p == ProgressView::Unlink(live_paths(r.spools))
                && after.sent == r.sent
            &&& live_paths(r.spools).len() == 0 ==> {
                &&& p == ProgressView::Done(Verb::Discarded)
                &&& !after.open
                &&& answer == Offered::Taken ==> after.sent == r.sent.push(
                    FrameView::End { trailers: Seq::empty(), truncated: true },
                )
                &&& answer != Offered::Taken ==> after.sent == r.sent
            }
        }),
{
    let y = called(r, c);
    assert(r.outbox =~= Seq::empty());
    assert(y.outbox =~= Seq::empty());
    let k = concluded(y);
    assert(due(y) is None);
    assert(due(k) is Some);
    if live_paths(r.spools).len() == 0 {
        assert(worked_off(y, d, seq![answer]) == worked_off(
            k,
            concluding_desk(y, d),
            seq![answer],
        ));
    }
}

/// What the host says for a unit that was dropped. Where the script's end is
/// out, where its cycle died or where nobody reads, it says nothing. Where a head
/// is out, the end says that the response was cut. Where none is, the client gets
/// a complete 500 without a body; the head that the script had committed is not
/// sent.
pub proof fn a_dropped_unit_is_answered<F>(r: RespondView<F>, cycle_died: bool)
    ensures
        ({
            let s = last_words(r, cycle_died);
            let silent = r.stage == Stage::Finalized || cycle_died || !r.open;
            &&& silent ==> s.len() == 0
            &&& !silent && r.head_sent ==> s.len() == 1 && (s[0] matches FrameView::End {
                trailers,
                truncated,
            } && trailers.len() == 0 && truncated)
            &&& !silent && !r.head_sent ==> {
                &&& s.len() == 2
                &&& s[0] matches FrameView::Head {
                    status,
                    fields,
                    content_length,
                    bodiless,
                    body_coded,
                } && status == 500 && fields.len() == 0 && !body_coded && bodiless == r.bodiless
                    && (r.bodiless ==> content_length is None) && (!r.bodiless ==> content_length
                    == Some(0u64))
                &&& s[1] matches FrameView::End { trailers, truncated } && trailers.len() == 0
                    && !truncated
            }
        }),
{
}

/// What an outcome throws into the script: nothing where the call was taken, and
/// otherwise an exception of the class that names the reason.
pub proof fn each_outcome_throws_its_own_class(v: Verb)
    ensures
        ({
            let t = thrown_by(v);
            &&& t is None <==> v == Verb::Accepted || v == Verb::Interim
            &&& t matches Some(x) ==> {
                &&& x.0 == ThrowClass::AlreadyFinalized <==> v == Verb::Finalized
                &&& x.0 == ThrowClass::HeadAlreadyWritten <==> v == Verb::HeadWritten
                &&& x.0 == ThrowClass::HeadNotWritten <==> v == Verb::HeadNotWritten
                &&& x.0 == ThrowClass::ContentLengthExceeded <==> v == Verb::ContentLengthExceeded
                &&& x.0 == ThrowClass::WorkDiscarded <==> v == Verb::Discarded
                &&& x.0 == ThrowClass::FileNotSendable <==> v is FileNotSendable
                &&& x.0 == ThrowClass::ValueError <==> v is BadField
                &&& x.0 == ThrowClass::Error <==> v == Verb::Overflow
            }
        }),
{
}

/// The bytes that may stand in a field name: letters, digits and
/// ``!#$%&'*+-.^_`|~``.
pub proof fn a_name_is_made_of_token_characters(b: u8)
    ensures
        tchar(b) <==> {
            ||| 48 <= b && b <= 57
            ||| 65 <= b && b <= 90
            ||| 97 <= b && b <= 122
            ||| b == 33
            ||| b == 35
            ||| b == 36
            ||| b == 37
            ||| b == 38
            ||| b == 39
            ||| b == 42
            ||| b == 43
            ||| b == 45
            ||| b == 46
            ||| b == 94
            ||| b == 95
            ||| b == 96
            ||| b == 124
            ||| b == 126
        },
{
}

/// The bytes that may not stand in a field value: control characters, the tab
/// aside, and the delete character.
pub proof fn a_value_holds_no_control_characters(b: u8)
    ensures
        !field_value_byte(b) <==> (b < 32 && b != 9) || b == 127,
{
}

/// One more entry of a header table: its values are added as lines under its
/// name, in order, behind those of the entries before. The first entry that
/// cannot be sent is what the table is refused for: its name is looked at first,
/// then whether it is a list, then its values.
pub proof fn a_table_is_read_entry_by_entry(
    t: Seq<(TableKey, TableEntry)>,
    e: (TableKey, TableEntry),
)
    ensures
        ({
            let named = e.0 matches TableKey::Name(n) && n@.len() > 0 && forall|i: int|
                0 <= i < n@.len() ==> tchar(#[trigger] n@[i]);
            let fault = table_fault(t.push(e));
            &&& table_fault(t) is Some ==> fault == table_fault(t)
            &&& table_fault(t) is None ==> {
                &&& fault == Some(FieldFault::NameNotWire) <==> !named
                &&& fault == Some(FieldFault::EntryNotList) <==> named && e.1 is Other
                &&& fault == Some(FieldFault::ValueNotWire) <==> named && (e.1
                    matches TableEntry::List(items) && exists|k: int|
                    0 <= k < items@.len() && match #[trigger] items@[k] {
                        TableItem::Text(v) => exists|j: int|
                            0 <= j < v@.len() && !field_value_byte(#[trigger] v@[j]),
                        TableItem::Other => true,
                    })
                &&& fault != Some(FieldFault::LengthRepeats)
            }
            &&& e.0 matches TableKey::Name(n) ==> (e.1 matches TableEntry::List(items) ==> {
                let before = table_lines(t);
                let after = table_lines(t.push(e));
                &&& after.len() == before.len() + items@.len()
                &&& forall|i: int| 0 <= i < before.len() ==> after[i] == #[trigger] before[i]
                &&& forall|k: int|
                    0 <= k < items@.len() ==> ((#[trigger] items@[k]) matches TableItem::Text(v)
                        ==> after[before.len() + k] == (ascii_text(n@), v@))
            })
        }),
        table_fault(Seq::empty()) is None,
        table_lines(Seq::empty()).len() == 0,
{
    assert(t.push(e).drop_last() =~= t);
    if let TableKey::Name(n) = e.0 {
        assert(token(n@) <==> n@.len() > 0 && forall|i: int|
            0 <= i < n@.len() ==> tchar(#[trigger] n@[i]));
    }
    if let TableEntry::List(items) = e.1 {
        assert forall|k: int| 0 <= k < items@.len() implies item_sendable(#[trigger] items@[k])
            == match items@[k] {
            TableItem::Text(v) => !(exists|j: int|
                0 <= j < v@.len() && !field_value_byte(#[trigger] v@[j])),
            TableItem::Other => false,
        } by {
            if let TableItem::Text(v) = items@[k] {
                assert(carriable(v@) <==> forall|j: int|
                    0 <= j < v@.len() ==> field_value_byte(#[trigger] v@[j]));
            }
        }
    }
}

/// A head's status is any from 100 to 599; its table is looked at after it. No
/// table is an empty one.
pub proof fn a_heads_status_is_from_100_to_599(status: i64, table: Option<&HeadTable>)
    ensures
        head_fault(status, table) == Some(ArgFault::Status(status)) <==> status < 100 || status
            > 599,
        100 <= status <= 599 ==> match table {
            Some(t) => match table_fault(t@) {
                Some(f) => head_fault(status, table) == Some(ArgFault::Field(f)),
                None => head_fault(status, table) is None,
            },
            None => head_fault(status, table) is None,
        },
        table is None ==> flat_fields(table).len() == 0,
        table matches Some(t) ==> flat_fields(table) == table_lines(t@),
{
}

/// The fields that may not travel in a trailer section.
pub open spec fn barred() -> Seq<Seq<char>> {
    seq![
        "age"@,
        "authorization"@,
        "cache-control"@,
        "connection"@,
        "content-encoding"@,
        "content-language"@,
        "content-length"@,
        "content-location"@,
        "content-range"@,
        "content-type"@,
        "cookie"@,
        "date"@,
        "expect"@,
        "expires"@,
        "forwarded"@,
        "host"@,
        "if-match"@,
        "if-modified-since"@,
        "if-none-match"@,
        "if-range"@,
        "if-unmodified-since"@,
        "keep-alive"@,
        "location"@,
        "max-forwards"@,
        "pragma"@,
        "proxy-authenticate"@,
        "proxy-authorization"@,
        "proxy-connection"@,
        "range"@,
        "retry-after"@,
        "set-cookie"@,
        "te"@,
        "trailer"@,
        "transfer-encoding"@,
        "upgrade"@,
        "vary"@,
        "via"@,
        "warning"@,
        "www-authenticate"@,
    ]
}

/// A trailer is refused exactly when its name, in whatever case, is one of
/// those.
pub proof fn a_trailer_is_refused_by_its_name(name: Seq<char>)
    ensures
        trailer_forbidden(name) <==> exists|i: int|
            0 <= i < barred().len() && same_name(name, #[trigger] barred()[i]),
{
    let b = barred();
    assert(b.len() == 39);
    if trailer_forbidden(name) {
        assert(b[0] == "age"@);
        assert(b[1] == "authorization"@);
        assert(b[2] == "cache-control"@);
        assert(b[3] == "connection"@);
        assert(b[4] == "content-encoding"@);
        assert(b[5] == "content-language"@);
        assert(b[6] == "content-length"@);
        assert(b[7] == "content-location"@);
        assert(b[8] == "content-range"@);
        assert(b[9] == "content-type"@);
        assert(b[10] == "cookie"@);
        assert(b[11] == "date"@);
        assert(b[12] == "expect"@);
        assert(b[13] == "expires"@);
        assert(b[14] == "forwarded"@);
        assert(b[15] == "host"@);
        assert(b[16] == "if-match"@);
        assert(b[17] == "if-modified-since"@);
        assert(b[18] == "if-none-match"@);
        assert(b[19] == "if-range"@);
        assert(b[20] == "if-unmodified-since"@);
        assert(b[21] == "keep-alive"@);
        assert(b[22] == "location"@);
        assert(b[23] == "max-forwards"@);
        assert(b[24] == "pragma"@);
        assert(b[25] == "proxy-authenticate"@);
        assert(b[26] == "proxy-authorization"@);
        assert(b[27] == "proxy-connection"@);
        assert(b[28] == "range"@);
        assert(b[29] == "retry-after"@);
        assert(b[30] == "set-cookie"@);
        assert(b[31] == "te"@);
        assert(b[32] == "trailer"@);
        assert(b[33] == "transfer-encoding"@);
        assert(b[34] == "upgrade"@);
        assert(b[35] == "vary"@);
        assert(b[36] == "via"@);
        assert(b[37] == "warning"@);
        assert(b[38] == "www-authenticate"@);
    }
}

/// Trailers are refused where their table cannot be sent, and otherwise exactly
/// where one of them may not travel in a trailer section.
pub proof fn trailers_are_refused_by_their_names(t: HeadTable)
    ensures
        table_fault(t@) is Some ==> trailer_fault(Some(&t)) == Some(ArgFault::TrailerNotWire),
        table_fault(t@) is None ==> {
            &&& trailer_fault(Some(&t)) is Some <==> exists|i: int|
                0 <= i < table_lines(t@).len() && trailer_forbidden(
                    (#[trigger] table_lines(t@)[i]).0,
                )
            &&& trailer_fault(Some(&t)) is Some ==> trailer_fault(Some(&t)) == Some(
                ArgFault::TrailerForbidden,
            )
        },
        trailer_fault(None) is None,
{
}

/// A reader that leaves while a verb is under way. A verb that would have been
/// accepted discards the unit instead, which counts as failed; one that had
/// already decided to end the response keeps its answer and ends it. Nothing that
/// the reader did not take is on the stream.
pub proof fn a_reader_that_leaves_discards_the_unit<F>(r: RespondView<F>, d: DeskView, c: Call<F>)
    requires
        ready(r),
        countable(r, c),
        r.stage != Stage::Finalized,
        finds_reader(c),
        called(r, c).outbox.len() > 0,
        live_paths(r.spools).len() == 0,
    ensures
        ({
            let (after, desk, p) = worked_off(
                called(r, c),
                d,
                seq![Offered::Closed, Offered::Closed],
            );
            &&& after.sent == r.sent
            &&& after.stage == Stage::Finalized && !after.open
            &&& p matches ProgressView::Done(v) && {
                &&& v == Verb::Discarded || v == Verb::Overflow || v == Verb::ContentLengthExceeded
                &&& after.discarded <==> v == Verb::Discarded
                &&& v == Verb::Overflow <==> (c matches Call::Body { data, .. } && data.len()
                    > 67_108_864)
                &&& v == Verb::Discarded || v == Verb::Overflow ==> desk.board == recorded(
                    d.board,
                    Event::Handled(true),
                    0,
                )
                &&& v == Verb::ContentLengthExceeded ==> desk.board == recorded(
                    d.board,
                    Event::Handled(false),
                    0,
                )
                &&& v == Verb::Discarded ==> desk.cycle.served == d.cycle.served
            }
        }),
{
    let y = called(r, c);
    let no = Offered::Closed;
    let answers = seq![no, no];
    assert(r.outbox =~= Seq::empty());
    assert(due(y) is Some);
    let g = heard(y, no);
    assert(answers.drop_first() =~= seq![no]);
    assert(worked_off(y, d, answers) == worked_off(g, d, seq![no]));
    assert(due(g) is None);
    let k = concluded(g);
    assert(worked_off(g, d, seq![no]) == worked_off(k, concluding_desk(g, d), seq![no]));
    assert(due(k) is Some);
}

/// The wording that an outcome throws; nothing where it throws nothing.
pub open spec fn says(v: Verb) -> Seq<char> {
    match thrown_by(v) {
        Some(t) => t.1,
        None => Seq::empty(),
    }
}

/// What an outcome says to the script, whatever class it is thrown as.
pub proof fn each_outcome_says_why(v: Verb)
    ensures
        v == Verb::Finalized ==> says(v) == "the response already ended"@,
        v == Verb::HeadWritten ==> says(v) == "the final head has already been written"@,
        v == Verb::Overflow ==> says(v) == "response chunk exceeds the host buffer cap"@,
        v == Verb::Discarded ==> says(v) == "the host closed the exchange first"@,
        v == Verb::ContentLengthExceeded ==> says(v)
            == "the write goes past the content-length the head declared"@,
        v == Verb::HeadNotWritten ==> says(v) == "no final head has been committed yet"@,
        v == Verb::BadField(FieldFault::LengthRepeats) ==> says(v)
            == "content-length may not repeat"@,
{
}

/// A unit that is dropped is no longer the one in hand, whether or not its
/// response had ended; another unit stays. It counts as failed unless it had
/// ended, and the cycle's latches are left alone.
pub proof fn a_dropped_unit_is_let_go(d: DeskView, id: u64, ended: bool)
    ensures
        ({
            let after = abandoned_desk(d, id, ended);
            &&& d.cycle.unit == Unit::Handling(id) || d.cycle.unit == Unit::Sealed(id)
                ==> after.cycle.unit == Unit::Idle
            &&& d.cycle.unit != Unit::Handling(id) && d.cycle.unit != Unit::Sealed(id)
                ==> after.cycle.unit == d.cycle.unit
            &&& ended ==> after.board == d.board
            &&& !ended ==> after.board == recorded(d.board, Event::Handled(true), 0)
            &&& after.cycle.served == d.cycle.served && after.cycle.received == d.cycle.received
                && after.cycle.closed_seen == d.cycle.closed_seen
        }),
{
}

} // verus!
