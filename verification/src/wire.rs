//! Response heads as they go on the wire: the front owns framing and
//! connection management, and drops what the wire cannot carry.

use vstd::prelude::*;
use vstd::utf8::encode_utf8;
use crate::fields::{copy_bytes, copy_text, line, lines, FieldLines, Line};
use crate::headers::{carriable, token};
use crate::pieces::{cut, cut_bytes, lemma_cut_joined, lemma_cut_pieces};
use crate::seqs::{lemma_filter_push, lemma_take_all, lemma_take_push};
use crate::spool::paths;
use crate::text::{
    chars_of, decimal, lemma_trimmed, lossy, lossy_text, lower, lower_char, lower_text,
    push_decimal, same_name, same_text, trimmed, white_space,
};

verus! {

/// The longest field name the HTTP types hold.
pub const MAX_NAME_LEN: usize = 65535;

/// `http::HeaderName::from_bytes`: accepts exactly the tokens of at most 65535
/// bytes.
#[verifier::external_body]
pub(crate) fn header_name_valid(name: &[u8]) -> (r: bool)
    ensures
        r == (token(name@) && name@.len() <= MAX_NAME_LEN),
{
    http::HeaderName::from_bytes(name).is_ok()
}

/// `http::HeaderValue::from_bytes`: accepts exactly the byte strings of visible
/// ASCII, space, tab and bytes from 0x80 on.
#[verifier::external_body]
pub(crate) fn header_value_valid(value: &[u8]) -> (r: bool)
    ensures
        r == carriable(value@),
{
    http::HeaderValue::from_bytes(value).is_ok()
}

/// `http::StatusCode::from_u16`: accepts exactly 100 to 999.
#[verifier::external_body]
pub(crate) fn status_valid(status: u16) -> (r: bool)
    ensures
        r == (100 <= status <= 999),
{
    http::StatusCode::from_u16(status).is_ok()
}

/// The contents of a list of texts.
pub open spec fn texts(s: Seq<String>) -> Seq<Seq<char>> {
    s.map_values(|t: String| t@)
}

/// What one piece of a `Connection` value names.
pub open spec fn piece_name(p: Seq<u8>) -> Seq<char> {
    lower(trimmed(lossy(p)))
}

/// The field names that a `Connection` value lists, in lower case
/// (RFC 9110 section 7.6.1).
pub open spec fn listed_names(value: Seq<u8>) -> Seq<Seq<char>> {
    cut(value, 0x2c).map_values(|p: Seq<u8>| piece_name(p)).filter(|n: Seq<char>| n.len() > 0)
}

/// A name as it is compared: not empty, without a comma, without an ASCII
/// upper-case letter, and without white space at either end.
pub open spec fn clean_name(n: Seq<char>) -> bool {
    &&& n.len() > 0
    &&& forall|i: int| 0 <= i < n.len() ==> #[trigger] n[i] != ',' && !('A' <= n[i] && n[i] <= 'Z')
    &&& !white_space(n[0])
    &&& !white_space(n.last())
}

/// What is left of a text without a comma is a clean name, if anything is.
proof fn lemma_clean_name(t: Seq<char>)
    requires
        !t.contains(','),
        lower(trimmed(t)).len() > 0,
    ensures
        clean_name(lower(trimmed(t))),
{
    let s = trimmed(t);
    let n = lower(s);
    lemma_trimmed(t);
    assert forall|i: int| 0 <= i < n.len() implies #[trigger] n[i] != ',' && !('A' <= n[i] && n[i]
        <= 'Z') by {
        assert(n[i] == lower_char(s[i]));
        assert(t.contains(s[i]));
    }
    assert(n[0] == lower_char(s[0]));
    assert(n.last() == lower_char(s.last()));
}

/// A `Connection` value may be split over several: what `a` and `b` list when a
/// comma stands between them is what `a` lists and then what `b` lists.
pub proof fn a_connection_value_may_be_split(a: Seq<u8>, b: Seq<u8>)
    ensures
        listed_names(a + seq![0x2c] + b) == listed_names(a) + listed_names(b),
{
    let name = |p: Seq<u8>| piece_name(p);
    let keep = |n: Seq<char>| n.len() > 0;
    lemma_cut_joined(a, b, 0x2c);
    let x = cut(a, 0x2c).map_values(name);
    let y = cut(b, 0x2c).map_values(name);
    assert((cut(a, 0x2c) + cut(b, 0x2c)).map_values(name) =~= x + y);
    Seq::filter_distributes_over_add(x, y, keep);
    assert(listed_names(a + seq![0x2c] + b) == (x + y).filter(keep));
    assert(listed_names(a) == x.filter(keep));
    assert(listed_names(b) == y.filter(keep));
}

/// Adds the lower-cased field names that a `Connection` value lists; what was
/// there stays in front.
pub fn connection_named_headers(value: &[u8], out: &mut Vec<String>)
    ensures
        texts(final(out)@) == texts(old(out)@) + listed_names(value@),
        old(out)@.is_prefix_of(final(out)@),
        forall|k: int|
            old(out)@.len() <= k < final(out)@.len() ==> clean_name((#[trigger] final(out)@[k])@),
{
    let pieces = cut_bytes(value, 0x2c);
    let ghost all = cut(value@, 0x2c).map_values(|p: Seq<u8>| piece_name(p));
    let ghost keep = |n: Seq<char>| n.len() > 0;
    proof {
        reveal(Seq::filter);
        assert(all.take(0).filter(keep) =~= Seq::empty());
        assert(texts(out@) =~= texts(old(out)@) + all.take(0).filter(keep));
    }
    for i in 0..pieces.len()
        invariant
            paths(pieces@) == cut(value@, 0x2c),
            all == cut(value@, 0x2c).map_values(|p: Seq<u8>| piece_name(p)),
            keep == (|n: Seq<char>| n.len() > 0),
            texts(out@) == texts(old(out)@) + all.take(i as int).filter(keep),
            old(out)@.is_prefix_of(out@),
            forall|k: int|
                old(out)@.len() <= k < out@.len() ==> clean_name((#[trigger] out@[k])@),
    {
        assert(paths(pieces@)[i as int] == pieces@[i as int]@);
        let text = lossy_text(pieces[i].as_slice());
        let name = lower_text(text.as_str().trim());
        let ghost before = out@;
        proof {
            lemma_cut_pieces(value@, 0x2c);
            assert(!cut(value@, 0x2c)[i as int].contains(0x2c));
            assert(!text@.contains(',')) by {
                if text@.contains(',') {
                    let k = choose|k: int| 0 <= k < text@.len() && text@[k] == ',';
                    assert(text@[k] as u32 <= 0x7f);
                    assert(pieces@[i as int]@.contains(text@[k] as u8));
                }
            }
            if name@.len() > 0 {
                lemma_clean_name(text@);
            }
        }
        proof {
            lemma_take_push(all, i as int);
            lemma_filter_push(all.take(i as int), name@, keep);
        }
        if chars_of(name.as_str()).len() > 0 {
            out.push(name);
            assert(texts(out@) =~= texts(before).push(name@));
            assert(texts(out@) =~= texts(old(out)@) + all.take(i + 1).filter(keep));
            assert(old(out)@ =~= out@.subrange(0, old(out)@.len() as int));
        }
    }
    proof {
        lemma_take_all(all);
    }
}

/// Fields that the front owns instead of the script.
pub open spec fn owned_by_front(name: Seq<char>) -> bool {
    ||| same_name(name, "content-length"@)
    ||| same_name(name, "transfer-encoding"@)
    ||| same_name(name, "connection"@)
    ||| same_name(name, "keep-alive"@)
    ||| same_name(name, "upgrade"@)
    ||| same_name(name, "trailer"@)
    ||| same_name(name, "te"@)
    ||| same_name(name, "proxy-connection"@)
}

/// Whether the front owns a field instead of the script.
pub fn skip_response_header(name: &str) -> (r: bool)
    ensures
        r == owned_by_front(name@),
{
    name.eq_ignore_ascii_case("content-length") || name.eq_ignore_ascii_case("transfer-encoding")
        || name.eq_ignore_ascii_case("connection") || name.eq_ignore_ascii_case("keep-alive")
        || name.eq_ignore_ascii_case("upgrade") || name.eq_ignore_ascii_case("trailer")
        || name.eq_ignore_ascii_case("te") || name.eq_ignore_ascii_case("proxy-connection")
}

/// A field that the wire can carry.
pub open spec fn representable(l: Line) -> bool {
    token(encode_utf8(l.0)) && encode_utf8(l.0).len() <= MAX_NAME_LEN && carriable(l.1)
}

fn is_representable(name: &str, value: &[u8]) -> (r: bool)
    ensures
        r == representable((name@, value@)),
{
    header_name_valid(name.as_bytes()) && header_value_valid(value)
}

/// The field names that the `Connection` fields of a head list.
pub open spec fn connection_names(h: Seq<Line>) -> Seq<Seq<char>>
    decreases h.len(),
{
    if h.len() == 0 {
        Seq::empty()
    } else if same_name(h.last().0, "connection"@) {
        connection_names(h.drop_last()) + listed_names(h.last().1)
    } else {
        connection_names(h.drop_last())
    }
}

/// A script's field that goes on the wire: not the front's, not named by a
/// `Connection` field, and carriable.
pub open spec fn goes_out(names: Seq<Seq<char>>) -> spec_fn(Line) -> bool {
    |l: Line| !owned_by_front(l.0) && representable(l) && !names.contains(lower(l.0))
}

/// The front's own framing of a body. A bodiless response carries none.
pub open spec fn framing_fields(
    content_length: Option<u64>,
    chunked: bool,
    no_body: bool,
) -> Seq<Line> {
    if no_body {
        Seq::empty()
    } else if let Some(n) = content_length {
        seq![("Content-Length"@, encode_utf8(decimal(n as nat)))]
    } else if chunked {
        seq![("Transfer-Encoding"@, encode_utf8("chunked"@))]
    } else {
        Seq::empty()
    }
}

/// A head as it goes on the wire.
pub struct WireHead {
    pub status: u16,
    pub fields: FieldLines,
}

/// A status that HTTP has no room for.
#[derive(Clone, Copy, Debug, PartialEq, Eq, Structural)]
pub struct BadStatus {
    pub status: u16,
}

fn names_hold(names: &Vec<String>, name: &str) -> (r: bool)
    ensures
        r == texts(names@).contains(lower(name@)),
{
    let low = lower_text(name);
    for i in 0..names.len()
        invariant
            low@ == lower(name@),
            forall|k: int| 0 <= k < i ==> #[trigger] texts(names@)[k] != low@,
    {
        assert(texts(names@)[i as int] == names@[i as int]@);
        if same_text(names[i].as_str(), low.as_str()) {
            return true;
        }
    }
    false
}

fn keep_fields(headers: FieldLines, names: &Vec<String>) -> (r: FieldLines)
    ensures
        lines(r@) == lines(headers@).filter(goes_out(texts(names@))),
{
    let ghost all = lines(headers@);
    let ghost keep = goes_out(texts(names@));
    let mut out: FieldLines = Vec::new();
    proof {
        reveal(Seq::filter);
        assert(lines(out@) =~= all.take(0).filter(keep));
    }
    for l in it: headers
        invariant
            all == lines(it.seq()),
            keep == goes_out(texts(names@)),
            lines(out@) == all.take(it.index() as int).filter(keep),
    {
        let ghost before = out@;
        let ghost content = line(l);
        proof {
            lemma_take_push(all, it.index() as int);
            lemma_filter_push(all.take(it.index() as int), content, keep);
        }
        if !skip_response_header(l.0.as_str()) && is_representable(l.0.as_str(), l.1.as_slice())
            && !names_hold(names, l.0.as_str()) {
            out.push(l);
            assert(lines(out@) =~= lines(before).push(content));
        }
    }
    proof {
        lemma_take_all(all);
    }
    out
}

fn collect_names(headers: &FieldLines) -> (r: Vec<String>)
    ensures
        texts(r@) == connection_names(lines(headers@)),
{
    let ghost all = lines(headers@);
    let mut names: Vec<String> = Vec::new();
    assert(texts(names@) =~= connection_names(all.take(0)));
    for i in 0..headers.len()
        invariant
            all == lines(headers@),
            texts(names@) == connection_names(all.take(i as int)),
    {
        proof {
            lemma_take_push(all, i as int);
            assert(all.take(i + 1).drop_last() =~= all.take(i as int));
            assert(all[i as int] == line(headers@[i as int]));
        }
        if headers[i].0.as_str().eq_ignore_ascii_case("connection") {
            connection_named_headers(headers[i].1.as_slice(), &mut names);
        }
    }
    proof {
        lemma_take_all(all);
    }
    names
}

/// The fields of a final head on the wire: what the `Connection` fields name is
/// taken out first, so that it cannot strip the front's own framing.
pub open spec fn final_fields(
    h: Seq<Line>,
    content_length: Option<u64>,
    chunked: bool,
    no_body: bool,
) -> Seq<Line> {
    h.filter(goes_out(connection_names(h))) + framing_fields(content_length, chunked, no_body)
}

/// A final head for the wire.
pub fn build_response_header(
    status: u16,
    headers: FieldLines,
    content_length: Option<u64>,
    chunked: bool,
    no_body: bool,
) -> (r: Result<WireHead, BadStatus>)
    ensures
        r is Ok <==> 100 <= status <= 999,
        r matches Err(e) ==> e.status == status,
        r matches Ok(w) ==> w.status == status && lines(w.fields@) == final_fields(
            lines(headers@),
            content_length,
            chunked,
            no_body,
        ),
{
    if !status_valid(status) {
        return Err(BadStatus { status });
    }
    let names = collect_names(&headers);
    let mut fields = keep_fields(headers, &names);
    let ghost kept = fields@;
    if !no_body {
        match content_length {
            Some(n) => {
                let mut text = String::new();
                push_decimal(&mut text, n);
                assert(text@ =~= decimal(n as nat));
                let value = copy_bytes(text.as_str().as_bytes());
                fields.push((copy_text("Content-Length"), value));
            },
            None => {
                if chunked {
                    let value = copy_bytes("chunked".as_bytes());
                    fields.push((copy_text("Transfer-Encoding"), value));
                }
            },
        }
    }
    assert(lines(fields@) =~= lines(kept) + framing_fields(content_length, chunked, no_body));
    Ok(WireHead { status, fields })
}

/// An interim head for the wire: no framing at all.
pub fn build_interim_header(status: u16, headers: FieldLines) -> (r: Result<WireHead, BadStatus>)
    ensures
        r is Ok <==> 100 <= status <= 999,
        r matches Err(e) ==> e.status == status,
        r matches Ok(w) ==> w.status == status && lines(w.fields@) == lines(headers@).filter(
            goes_out(Seq::empty()),
        ),
{
    if !status_valid(status) {
        return Err(BadStatus { status });
    }
    let none: Vec<String> = Vec::new();
    assert(texts(none@) =~= Seq::<Seq<char>>::empty());
    let fields = keep_fields(headers, &none);
    Ok(WireHead { status, fields })
}

/// Framing is the front's alone: no field of the script's that goes out is a
/// framing or connection field, and nothing a script sends takes the front's
/// framing away.
pub proof fn framing_is_the_fronts_alone(
    h: Seq<Line>,
    content_length: Option<u64>,
    chunked: bool,
    no_body: bool,
)
    ensures
        ({
            let out = final_fields(h, content_length, chunked, no_body);
            let own = framing_fields(content_length, chunked, no_body);
            let script = h.filter(goes_out(connection_names(h)));
            &&& forall|i: int|
                0 <= i < script.len() ==> !owned_by_front((#[trigger] script[i]).0)
                    && representable(script[i])
            &&& out == script + own
            &&& no_body ==> own.len() == 0
            &&& !no_body && content_length is Some ==> own.len() == 1 && same_name(
                own[0].0,
                "Content-Length"@,
            )
        }),
{
    let pred = goes_out(connection_names(h));
    let script = h.filter(pred);
    assert forall|i: int| 0 <= i < script.len() implies !owned_by_front((#[trigger] script[i]).0)
        && representable(script[i]) by {
        h.lemma_filter_pred(pred, i);
    }
}

/// What a `Connection` field names never goes out.
pub proof fn connection_named_fields_are_removed(h: Seq<Line>, i: int, name: Seq<char>)
    requires
        connection_names(h).contains(lower(name)),
        0 <= i < h.filter(goes_out(connection_names(h))).len(),
    ensures
        !same_name(h.filter(goes_out(connection_names(h)))[i].0, name),
{
    h.lemma_filter_pred(goes_out(connection_names(h)), i);
}

/// A head that answers a request by itself: a status and an empty body.
pub fn refusal_head(status: u16) -> (r: Result<WireHead, BadStatus>)
    ensures
        r is Ok <==> 100 <= status <= 999,
        r matches Err(e) ==> e.status == status,
        r matches Ok(w) ==> w.status == status && lines(w.fields@) == seq![
            ("Content-Length"@, encode_utf8("0"@)),
        ],
{
    if !status_valid(status) {
        return Err(BadStatus { status });
    }
    let mut fields: FieldLines = Vec::new();
    let value = copy_bytes("0".as_bytes());
    fields.push((copy_text("Content-Length"), value));
    assert(lines(fields@) =~= seq![("Content-Length"@, encode_utf8("0"@))]);
    Ok(WireHead { status, fields })
}

} // verus!
