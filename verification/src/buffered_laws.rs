//! Buffered responses as a whole: what the script's header lines and output
//! become on the stream.

use vstd::prelude::*;
use crate::context::{
    finished, first_word, output_kept, status_code, status_line, unsigned_part, upto_space,
    Context,
};
use crate::fields::{ascii_text, lines, Line};
use crate::frames::{FrameView, ResponseHead};
use crate::headers::coded;
use crate::resident::{bare_head, closed_out};
use crate::sapi::{
    ascii_trimmed, ascii_trimmed_end, ascii_trimmed_start, colon, line_parts, parsed_lines,
    script_head,
};
use crate::seqs::lemma_filter_push;
use crate::text::{all_digits, digits_value, lossy, same_name, trimmed};
use crate::types::StreamState;

verus! {

/// The bytes of the chunks of a stream, in order.
pub open spec fn chunk_bytes<F>(s: Seq<FrameView<F>>) -> Seq<u8>
    decreases s.len(),
{
    if s.len() == 0 {
        Seq::empty()
    } else {
        match s.last() {
            FrameView::Chunk(b) => chunk_bytes(s.drop_last()) + b,
            _ => chunk_bytes(s.drop_last()),
        }
    }
}

/// The head that was recorded leads the sealed response with its own status and
/// its own field lines, in order. All of the body follows it, and the end says
/// whether the response was cut. The head states the body's length, but not for
/// one that was cut, and not where the status or the method rules a body out.
pub proof fn a_recorded_head_leaves_as_it_is<F>(
    method: Seq<char>,
    head: ResponseHead,
    body: Seq<u8>,
    truncated: bool,
)
    requires
        body.len() <= u64::MAX,
    ensures
        ({
            let s = finished::<F>(method, Some(head), body, truncated);
            let ruled_out = head.status == 204 || head.status == 304 || (100 <= head.status
                && head.status <= 199) || same_name(method, "HEAD"@);
            &&& s.len() >= 2
            &&& s[0] matches FrameView::Head {
                status,
                fields,
                content_length,
                bodiless,
                body_coded,
            } && {
                &&& status == head.status
                &&& fields.len() == head.headers@.len()
                &&& forall|i: int|
                    0 <= i < fields.len() ==> (#[trigger] fields[i]).0 == head.headers@[i].0@
                        && fields[i].1 == head.headers@[i].1@
                &&& content_length is Some <==> !ruled_out && !truncated
                &&& content_length matches Some(n) ==> n == body.len()
                &&& bodiless == ruled_out
                &&& body_coded <==> exists|i: int|
                    0 <= i < fields.len() && same_name(
                        (#[trigger] fields[i]).0,
                        "content-encoding"@,
                    )
            }
            &&& forall|i: int| 0 < i < s.len() - 1 ==> #[trigger] s[i] is Chunk
            &&& chunk_bytes(s) == body
            &&& s.last() matches FrameView::End { trailers, truncated: cut } && trailers.len() == 0
                && cut == truncated
        }),
{
    let s = finished::<F>(method, Some(head), body, truncated);
    let f = lines(head.headers@);
    assert(s[0] is Head && s[0]->Head_fields == f);
    assert(s[0]->body_coded == coded(f));
    let a = s.take(1);
    assert(a.drop_last() =~= Seq::empty());
    assert(chunk_bytes(Seq::<FrameView<F>>::empty()) =~= Seq::<u8>::empty());
    assert(chunk_bytes(a) =~= Seq::<u8>::empty());
    if body.len() > 0 {
        let b = s.take(2);
        assert(b.drop_last() =~= a);
        assert(b.last() == s[1]);
        assert(s.drop_last() =~= b);
        assert(chunk_bytes(b) =~= body);
        assert(chunk_bytes(s) =~= body);
    } else {
        assert(s.drop_last() =~= a);
        assert(chunk_bytes(s) =~= body);
    }
}

/// A response without a recorded head is its end alone.
pub proof fn no_head_is_an_end_alone<F>(method: Seq<char>, body: Seq<u8>, truncated: bool)
    ensures
        ({
            let s = finished::<F>(method, None, body, truncated);
            &&& s.len() == 1
            &&& s[0] matches FrameView::End { trailers, truncated: cut } && trailers.len() == 0
                && cut == truncated
        }),
{
}

/// A value between white space.
pub open spec fn padded(whole: Seq<u8>, lead: Seq<u8>, value: Seq<u8>, tail: Seq<u8>) -> bool {
    &&& whole == lead + value + tail
    &&& forall|i: int| 0 <= i < lead.len() ==> blank(#[trigger] lead[i])
    &&& forall|i: int| 0 <= i < tail.len() ==> blank(#[trigger] tail[i])
    &&& value.len() > 0 ==> !blank(value[0]) && !blank(value.last())
    &&& value.len() == 0 ==> tail.len() == 0
}

/// A space, a tab, a line feed, a form feed or a carriage return.
pub open spec fn blank(b: u8) -> bool {
    b == 32 || b == 9 || b == 10 || b == 12 || b == 13
}

proof fn lemma_trimmed_start_of(lead: Seq<u8>, rest: Seq<u8>)
    requires
        forall|i: int| 0 <= i < lead.len() ==> blank(#[trigger] lead[i]),
        rest.len() > 0 ==> !blank(rest[0]),
    ensures
        ascii_trimmed_start(lead + rest) == rest,
    decreases lead.len(),
{
    let s = lead + rest;
    if lead.len() > 0 {
        assert(s[0] == lead[0]);
        assert(s.drop_first() =~= lead.drop_first() + rest);
        lemma_trimmed_start_of(lead.drop_first(), rest);
    } else {
        assert(s =~= rest);
    }
}

proof fn lemma_trimmed_end_of(value: Seq<u8>, tail: Seq<u8>)
    requires
        forall|i: int| 0 <= i < tail.len() ==> blank(#[trigger] tail[i]),
        value.len() > 0 ==> !blank(value.last()),
    ensures
        ascii_trimmed_end(value + tail) == value,
    decreases tail.len(),
{
    let s = value + tail;
    if tail.len() > 0 {
        assert(s.last() == tail.last());
        assert(s.drop_last() =~= value + tail.drop_last());
        lemma_trimmed_end_of(value, tail.drop_last());
    } else {
        assert(s =~= value);
    }
}

/// A value sheds the white space around it and nothing else.
pub proof fn a_value_sheds_its_padding(
    whole: Seq<u8>,
    lead: Seq<u8>,
    value: Seq<u8>,
    tail: Seq<u8>,
)
    requires
        padded(whole, lead, value, tail),
    ensures
        ascii_trimmed(whole) == value,
{
    assert(whole =~= lead + (value + tail));
    if value.len() > 0 {
        assert((value + tail)[0] == value[0]);
    }
    lemma_trimmed_start_of(lead, value + tail);
    lemma_trimmed_end_of(value, tail);
}

/// The first colon of a line is where its name ends.
pub open spec fn first_colon(l: Seq<u8>, k: int) -> bool {
    0 <= k < l.len() && l[k] == 0x3a && forall|j: int| 0 <= j < k ==> #[trigger] l[j] != 0x3a
}

proof fn lemma_colon(l: Seq<u8>, k: int)
    requires
        first_colon(l, k),
    ensures
        colon(l) == Some(k as nat),
    decreases k,
{
    if k > 0 {
        assert(l[0] != 0x3a);
        let rest = l.drop_first();
        assert forall|j: int| 0 <= j < k - 1 implies #[trigger] rest[j] != 0x3a by {
            assert(rest[j] == l[j + 1]);
        }
        lemma_colon(rest, k - 1);
    }
}

proof fn lemma_no_colon(l: Seq<u8>)
    requires
        forall|j: int| 0 <= j < l.len() ==> #[trigger] l[j] != 0x3a,
    ensures
        colon(l) is None,
    decreases l.len(),
{
    if l.len() > 0 {
        assert(l[0] != 0x3a);
        let rest = l.drop_first();
        assert forall|j: int| 0 <= j < rest.len() implies #[trigger] rest[j] != 0x3a by {
            assert(rest[j] == l[j + 1]);
        }
        lemma_no_colon(rest);
    }
}

/// One more header line of the script: its field is added behind the others,
/// and a `Status` line sets the code instead. A line without a colon or without
/// a name changes nothing, and neither does a `Status` line whose code cannot be
/// read.
pub proof fn each_header_line_is_a_field(
    code: i32,
    raw: Seq<Seq<u8>>,
    l: Seq<u8>,
    k: int,
    lead: Seq<u8>,
    value: Seq<u8>,
    tail: Seq<u8>,
)
    ensures
        ({
            let before = script_head(code, raw);
            let after = script_head(code, raw.push(l));
            let name = trimmed(lossy(l.take(k)));
            &&& (forall|j: int| 0 <= j < l.len() ==> #[trigger] l[j] != 0x3a) ==> after == before
            &&& first_colon(l, k) && name.len() == 0 ==> after == before
            &&& first_colon(l, k) && name.len() > 0 && padded(l.skip(k + 1), lead, value, tail)
                && !same_name(name, "status"@) ==> after == (before.0, before.1.push((name, value)))
            &&& first_colon(l, k) && padded(l.skip(k + 1), lead, value, tail) && same_name(
                name,
                "status"@,
            ) ==> after.1 == before.1 && after.0 == match status_code(value) {
                Some(c) => c,
                None => before.0,
            }
        }),
{
    let keep = |f: Line| !status_line(f);
    let p = parsed_lines(raw);
    assert(raw.push(l).drop_last() =~= raw);
    if forall|j: int| 0 <= j < l.len() ==> #[trigger] l[j] != 0x3a {
        lemma_no_colon(l);
    }
    if first_colon(l, k) {
        lemma_colon(l, k);
        let name = trimmed(lossy(l.take(k)));
        reveal_strlit("status");
        if same_name(name, "status"@) {
            assert(crate::text::lower(name).len() == name.len());
            assert(crate::text::lower("status"@).len() == 6);
        }
        if name.len() > 0 && padded(l.skip(k + 1), lead, value, tail) {
            a_value_sheds_its_padding(l.skip(k + 1), lead, value, tail);
            let f: Line = (name, value);
            assert(line_parts(l) == Some(f));
            lemma_filter_push(p, f, keep);
            assert(p.push(f).drop_last() =~= p);
        }
    }
}

/// Before any header line the head has no fields, and the engine's code, in 16
/// bits, or 200 where the engine recorded none.
pub proof fn a_head_starts_bare(code: i32)
    ensures
        script_head(code, Seq::empty()).1 == Seq::<Line>::empty(),
        code == 0 ==> script_head(code, Seq::empty()).0 == 200,
        0 < code <= 65535 ==> script_head(code, Seq::empty()).0 == code,
{
    reveal(Seq::filter);
    assert(parsed_lines(Seq::<Seq<u8>>::empty()) =~= Seq::<Line>::empty());
    assert(script_head(code, Seq::empty()).1 =~= Seq::<Line>::empty());
}

proof fn lemma_upto_space(word: Seq<u8>, rest: Seq<u8>)
    requires
        forall|i: int| 0 <= i < word.len() ==> !blank(#[trigger] word[i]),
        rest.len() > 0 ==> blank(rest[0]),
    ensures
        upto_space(word + rest) == word,
    decreases word.len(),
{
    let s = word + rest;
    if word.len() == 0 {
        assert(s =~= rest);
        assert(upto_space(s) =~= word);
    } else {
        assert(s[0] == word[0]);
        assert(s.drop_first() =~= word.drop_first() + rest);
        lemma_upto_space(word.drop_first(), rest);
        assert(seq![s[0]] + word.drop_first() =~= word);
    }
}

proof fn lemma_first_word(lead: Seq<u8>, word: Seq<u8>, rest: Seq<u8>)
    requires
        forall|i: int| 0 <= i < lead.len() ==> blank(#[trigger] lead[i]),
        forall|i: int| 0 <= i < word.len() ==> !blank(#[trigger] word[i]),
        word.len() > 0,
        rest.len() > 0 ==> blank(rest[0]),
    ensures
        first_word(lead + word + rest) == word,
    decreases lead.len(),
{
    let s = lead + word + rest;
    if lead.len() > 0 {
        assert(s[0] == lead[0]);
        assert(s.drop_first() =~= lead.drop_first() + word + rest);
        lemma_first_word(lead.drop_first(), word, rest);
    } else {
        assert(s[0] == word[0]);
        assert(s =~= word + rest);
        lemma_upto_space(word, rest);
    }
}

/// A status is read from three digits at the start of the value, up to white
/// space or the end: any from 100 to 599, and no other.
pub proof fn a_status_value_starts_with_its_code(
    lead: Seq<u8>,
    a: u8,
    b: u8,
    c: u8,
    rest: Seq<u8>,
)
    requires
        forall|i: int| 0 <= i < lead.len() ==> blank(#[trigger] lead[i]),
        48 <= a <= 57,
        48 <= b <= 57,
        48 <= c <= 57,
        rest.len() > 0 ==> blank(rest[0]),
    ensures
        ({
            let n = (a - 48) * 100 + (b - 48) * 10 + (c - 48);
            status_code(lead + seq![a, b, c] + rest) == if 100 <= n && n <= 599 {
                Some(n as u16)
            } else {
                None
            }
        }),
{
    let w = seq![a, b, c];
    lemma_first_word(lead, w, rest);
    let t = ascii_text(w);
    let t2 = t.drop_last();
    let t1 = t2.drop_last();
    assert(t1.drop_last() =~= Seq::<char>::empty());
    assert(t[0] == a as char && t[1] == b as char && t[2] == c as char);
    assert(digits_value(t1.drop_last()) == 0);
    assert(digits_value(t1) == a - 48);
    assert(digits_value(t2) == (a - 48) * 10 + (b - 48));
    assert(digits_value(t) == ((a - 48) * 10 + (b - 48)) * 10 + (c - 48));
    assert(all_digits(t));
}

/// A value whose first word has anything but digits, a leading plus sign aside,
/// names no status.
pub proof fn other_words_name_no_status(lead: Seq<u8>, word: Seq<u8>, rest: Seq<u8>, k: int)
    requires
        forall|i: int| 0 <= i < lead.len() ==> blank(#[trigger] lead[i]),
        forall|i: int| 0 <= i < word.len() ==> !blank(#[trigger] word[i]),
        rest.len() > 0 ==> blank(rest[0]),
        0 <= k < word.len(),
        word[k] < 48 || word[k] > 57,
        k == 0 && word[0] == 0x2b ==> word.len() == 1,
    ensures
        status_code(lead + word + rest) is None,
{
    lemma_first_word(lead, word, rest);
    let u = unsigned_part(word);
    let t = ascii_text(u);
    let at: int = if word.len() > 1 && word[0] == 0x2b {
        k - 1
    } else {
        k
    };
    assert(u[at] == word[k]);
    assert(t[at] == word[k] as char);
}

/// What the script wrote by header lines leaves on the stream: the first frame
/// of the sealed response has the code and the fields of those lines.
pub proof fn the_scripts_head_leads_its_response<F>(
    code: i32,
    raw: Seq<Seq<u8>>,
    head: ResponseHead,
    method: Seq<char>,
    body: Seq<u8>,
    truncated: bool,
)
    requires
        (head.status, lines(head.headers@)) == script_head(code, raw),
        body.len() <= u64::MAX,
    ensures
        finished::<F>(method, Some(head), body, truncated)[0] matches FrameView::Head {
            status,
            fields,
            ..
        } && status == script_head(code, raw).0 && fields == script_head(code, raw).1,
{
    a_recorded_head_leaves_as_it_is::<F>(method, head, body, truncated);
    let s = finished::<F>(method, Some(head), body, truncated);
    if let FrameView::Head { fields, .. } = s[0] {
        let own = lines(head.headers@);
        assert forall|i: int| 0 <= i < fields.len() implies fields[i] == own[i] by {
            assert(own[i] == (head.headers@[i].0@, head.headers@[i].1@));
        }
        assert(fields =~= lines(head.headers@));
    }
}

/// A response that is closed after its script ran. Where the script went well,
/// and where it failed with its head recorded, the head that was recorded leads.
/// A failure without a head is answered by a 500 without fields. Only a failure
/// whose body was already on its way is cut, and then no length is stated.
pub proof fn a_failed_script_is_answered<F>(
    s: Seq<FrameView<F>>,
    method: Seq<char>,
    head: Option<ResponseHead>,
    stream: StreamState,
    body: Seq<u8>,
    failed: bool,
)
    requires
        closed_out(s, method, head, stream, body, failed),
        body.len() <= u64::MAX,
    ensures
        s.len() > 0,
        failed && stream == StreamState::NotSent ==> (s[0] matches FrameView::Head {
            status,
            fields,
            ..
        } && status == 500 && fields.len() == 0),
        !(failed && stream == StreamState::NotSent) ==> match head {
            Some(h) => s[0] matches FrameView::Head { status, fields, .. } && status == h.status
                && fields == lines(h.headers@),
            None => s.len() == 1,
        },
        s[0] is Head ==> chunk_bytes(s) == body,
        s.last() matches FrameView::End { truncated, .. } && truncated == (failed && stream
            == StreamState::BodyStreamed),
        s[0] is Head && failed && stream == StreamState::BodyStreamed ==> s[0]->content_length
            is None,
{
    let truncated = failed && stream == StreamState::BodyStreamed;
    if failed && stream == StreamState::NotSent {
        let h = choose|h: Option<ResponseHead>|
            (#[trigger] bare_head(h, 500)) && s == finished::<F>(method, h, body, truncated);
        a_recorded_head_leaves_as_it_is::<F>(method, h->0, body, truncated);
        assert(lines(h->0.headers@).len() == h->0.headers@.len());
    } else if let Some(h) = head {
        a_recorded_head_leaves_as_it_is::<F>(method, h, body, truncated);
        if let FrameView::Head { fields, .. } = s[0] {
            assert(fields =~= lines(h.headers@));
        }
    } else {
        no_head_is_an_end_alone::<F>(method, body, truncated);
    }
}

/// The first output of a script without a head makes one, with the status that
/// the engine has then and without fields; later output changes no head. All
/// output is kept, in order. A failure after it cuts the response, but not after
/// output that only the teardown wrote.
pub proof fn output_is_kept_behind_its_head<F>(
    before: Context<F>,
    after: Context<F>,
    status: u16,
    data: Seq<u8>,
)
    requires
        output_kept(before, after, status, data),
    ensures
        before.stream == StreamState::NotSent ==> (after.head matches Some(h) && h.status == status
            && h.headers@.len() == 0),
        before.stream != StreamState::NotSent ==> after.head == before.head,
        after.body@.len() == before.body@.len() + data.len(),
        forall|i: int| 0 <= i < before.body@.len() ==> after.body@[i] == #[trigger] before.body@[i],
        forall|i: int|
            0 <= i < data.len() ==> after.body@[before.body@.len() + i] == #[trigger] data[i],
        after.stream != StreamState::NotSent,
        after.stream == StreamState::BodyStreamed <==> !before.tearing_down || before.stream
            == StreamState::BodyStreamed,
        after.req == before.req && after.sender == before.sender && after.tearing_down
            == before.tearing_down,
{
    if let Some(h) = after.head {
        assert(lines(h.headers@).len() == h.headers@.len());
    }
}

} // verus!
