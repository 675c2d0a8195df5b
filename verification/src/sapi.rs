//! The engine's callbacks that decide something: header lines, request info,
//! body reads.

use vstd::prelude::*;
use crate::cgi::ReqC;
use crate::context::{ascii_space, committed_status, status_line, Context};
use crate::diagnostics::{bits, to_bits};
use crate::fields::{copy_range, copy_text, lines, FieldLines, Line};
use crate::seqs::{lemma_take_all, lemma_take_push};
use crate::text::{lossy, lossy_text, same_text, trimmed};
use crate::types::{Body, Request, StreamState};

verus! {

/// The status of a response: the low 16 bits of the recorded code, or 200 where
/// no code is recorded.
pub fn response_status(code: i32) -> (r: u16)
    ensures
        r == (if code != 0 {
            (bits(code) % 65536) as u16
        } else {
            200
        }),
{
    if code != 0 {
        (to_bits(code) % 65536) as u16
    } else {
        200
    }
}

/// A byte string without its leading ASCII white space.
pub open spec fn ascii_trimmed_start(v: Seq<u8>) -> Seq<u8>
    decreases v.len(),
{
    if v.len() > 0 && ascii_space(v[0]) {
        ascii_trimmed_start(v.drop_first())
    } else {
        v
    }
}

/// A byte string without its trailing ASCII white space.
pub open spec fn ascii_trimmed_end(v: Seq<u8>) -> Seq<u8>
    decreases v.len(),
{
    if v.len() > 0 && ascii_space(v.last()) {
        ascii_trimmed_end(v.drop_last())
    } else {
        v
    }
}

/// A byte string without the ASCII white space around it.
pub open spec fn ascii_trimmed(v: Seq<u8>) -> Seq<u8> {
    ascii_trimmed_end(ascii_trimmed_start(v))
}

fn is_space(b: u8) -> (r: bool)
    ensures
        r == ascii_space(b),
{
    b == 0x20 || b == 0x09 || b == 0x0a || b == 0x0c || b == 0x0d
}

/// A byte string without the ASCII white space around it.
pub fn trim_ascii(v: &[u8]) -> (r: Vec<u8>)
    ensures
        r@ == ascii_trimmed(v@),
{
    let mut start: usize = 0;
    assert(v@.skip(0) =~= v@);
    while start < v.len() && is_space(v[start])
        invariant
            start <= v@.len(),
            ascii_trimmed_start(v@) == ascii_trimmed_start(v@.skip(start as int)),
        decreases v@.len() - start,
    {
        assert(v@.skip(start as int).drop_first() =~= v@.skip(start + 1));
        start = start + 1;
    }
    let ghost rest = v@.skip(start as int);
    assert(ascii_trimmed_start(v@) == rest);
    let mut end: usize = v.len();
    assert(v@.subrange(start as int, end as int) =~= rest);
    while end > start && is_space(v[end - 1])
        invariant
            start <= end <= v@.len(),
            ascii_trimmed_end(rest) == ascii_trimmed_end(v@.subrange(start as int, end as int)),
        decreases end,
    {
        assert(v@.subrange(start as int, end as int).drop_last() =~= v@.subrange(
            start as int,
            end - 1,
        ));
        end = end - 1;
    }
    copy_range(v, start, end)
}

/// The place of the first colon.
pub open spec fn colon(line: Seq<u8>) -> Option<nat>
    decreases line.len(),
{
    if line.len() == 0 {
        None
    } else if line[0] == 0x3a {
        Some(0)
    } else {
        match colon(line.drop_first()) {
            Some(i) => Some(i + 1),
            None => None,
        }
    }
}

/// The name and value of a header line; a line without a colon or without a
/// name has none.
pub open spec fn line_parts(line: Seq<u8>) -> Option<Line> {
    match colon(line) {
        None => None,
        Some(i) => {
            let name = trimmed(lossy(line.take(i as int)));
            if name.len() > 0 {
                Some((name, ascii_trimmed(line.skip(i as int + 1))))
            } else {
                None
            }
        },
    }
}

fn find_colon(line: &[u8]) -> (r: Option<usize>)
    ensures
        match r {
            Some(i) => i < line@.len() && colon(line@) == Some(i as nat),
            None => colon(line@) is None,
        },
{
    assert(line@.skip(0) =~= line@);
    for i in 0..line.len()
        invariant
            match colon(line@.skip(i as int)) {
                Some(k) => colon(line@) == Some((i + k) as nat),
                None => colon(line@) is None,
            },
    {
        assert(line@.skip(i as int).drop_first() =~= line@.skip(i + 1));
        if line[i] == 0x3a {
            return Some(i);
        }
    }
    assert(line@.skip(line@.len() as int) =~= Seq::empty());
    None
}

/// The name and value of a header line.
pub fn name_value(line: &[u8]) -> (r: Option<(String, Vec<u8>)>)
    ensures
        match r {
            Some(l) => line_parts(line@) == Some((l.0@, l.1@)),
            None => line_parts(line@) is None,
        },
{
    match find_colon(line) {
        None => None,
        Some(i) => {
            let raw = copy_range(line, 0, i);
            assert(raw@ =~= line@.take(i as int));
            let text = lossy_text(raw.as_slice());
            let name = copy_text(text.as_str().trim());
            let end: usize = line.len();
            let tail = copy_range(line, i + 1, end);
            assert(tail@ =~= line@.skip(i + 1));
            let value = trim_ascii(tail.as_slice());
            if crate::text::chars_of(name.as_str()).len() == 0 {
                None
            } else {
                Some((name, value))
            }
        },
    }
}

/// The header lines that have a name and a value, in order.
pub open spec fn parsed_lines(raw: Seq<Seq<u8>>) -> Seq<Line>
    decreases raw.len(),
{
    if raw.len() == 0 {
        Seq::empty()
    } else {
        match line_parts(raw.last()) {
            Some(l) => parsed_lines(raw.drop_last()).push(l),
            None => parsed_lines(raw.drop_last()),
        }
    }
}

/// The fields of the engine's header lines.
pub fn header_lines(raw: &Vec<Vec<u8>>) -> (r: FieldLines)
    ensures
        lines(r@) == parsed_lines(crate::spool::paths(raw@)),
{
    let ghost all = crate::spool::paths(raw@);
    let mut r: FieldLines = Vec::new();
    assert(lines(r@) =~= parsed_lines(all.take(0)));
    for i in 0..raw.len()
        invariant
            all == crate::spool::paths(raw@),
            lines(r@) == parsed_lines(all.take(i as int)),
    {
        let ghost before = r@;
        proof {
            lemma_take_push(all, i as int);
            assert(all.take(i + 1).drop_last() =~= all.take(i as int));
            assert(all[i as int] == raw@[i as int]@);
        }
        if let Some(l) = name_value(raw[i].as_slice()) {
            let ghost content = (l.0@, l.1@);
            r.push(l);
            assert(lines(r@) =~= lines(before).push(content));
        }
    }
    proof {
        lemma_take_all(all);
    }
    r
}

/// The engine's number of a protocol; an unknown one counts as HTTP/1.1.
pub open spec fn protocol_number(p: Seq<char>) -> i32 {
    if p == "HTTP/1.0"@ {
        1000
    } else if p == "HTTP/2.0"@ {
        2000
    } else if p == "HTTP/3.0"@ {
        3000
    } else {
        1001
    }
}

/// The engine's number of a protocol.
pub fn proto_num(p: &str) -> (r: i32)
    ensures
        r == protocol_number(p@),
{
    if same_text(p, "HTTP/1.0") {
        1000
    } else if same_text(p, "HTTP/2.0") {
        2000
    } else if same_text(p, "HTTP/3.0") {
        3000
    } else {
        1001
    }
}

/// What the engine is told of a request before the script runs.
pub struct RequestInfo<'a> {
    pub request_method: &'a Vec<u8>,
    pub query_string: &'a Vec<u8>,
    pub request_uri: &'a Vec<u8>,
    pub path_translated: &'a Vec<u8>,
    pub content_type: Option<&'a Vec<u8>>,
    pub content_length: i64,
    pub proto_num: i32,
    pub authorization: Option<&'a Vec<u8>>,
}

/// Two optional byte strings hold the same.
pub open spec fn same_option(a: Option<&Vec<u8>>, b: Option<Vec<u8>>) -> bool {
    match (a, b) {
        (Some(a), Some(b)) => *a == b,
        (None, None) => true,
        _ => false,
    }
}

/// What the engine is told of a request is its CGI view.
pub open spec fn informs(i: RequestInfo<'_>, r: Request, c: ReqC) -> bool {
    &&& *i.request_method == c.method
    &&& *i.query_string == c.query
    &&& *i.request_uri == c.uri
    &&& *i.path_translated == c.script
    &&& same_option(i.content_type, c.ctype)
    &&& i.content_length == r.content_length
    &&& i.proto_num == protocol_number(r.protocol@)
    &&& same_option(i.authorization, c.authorization)
}

/// What the engine is told of a request; nothing where the CGI view was not
/// materialized.
pub fn populate_request_context<F>(ctx: &Context<F>) -> (r: Option<RequestInfo<'_>>)
    ensures
        r is Some <==> ctx.c is Some,
        r matches Some(i) ==> informs(i, ctx.req, ctx.c->0),
{
    match &ctx.c {
        None => None,
        Some(c) => Some(
            RequestInfo {
                request_method: &c.method,
                query_string: &c.query,
                request_uri: &c.uri,
                path_translated: &c.script,
                content_type: c.ctype.as_ref(),
                content_length: ctx.req.content_length,
                proto_num: proto_num(ctx.req.protocol.as_str()),
                authorization: c.authorization.as_ref(),
            },
        ),
    }
}

/// The bytes of a body that were not read yet.
pub open spec fn unread(b: Body) -> Seq<u8> {
    match b {
        Body::Raw { data, pos } => if pos <= data@.len() {
            data@.skip(pos as int)
        } else {
            Seq::empty()
        },
        _ => Seq::empty(),
    }
}

/// The number of bytes a read of `count` gives.
pub open spec fn read_len(b: Body, count: nat) -> nat {
    if unread(b).len() < count {
        unread(b).len()
    } else {
        count
    }
}

/// Reads up to `count` bytes of a body; fewer only where the body ends. A body
/// that cannot be read gives none.
pub fn read_post(body: &mut Body, count: usize) -> (r: Vec<u8>)
    ensures
        r@ == unread(*old(body)).take(read_len(*old(body), count as nat) as int),
        unread(*final(body)) == unread(*old(body)).skip(
            read_len(*old(body), count as nat) as int,
        ),
{
    match body {
        Body::Raw { data, pos } => {
            let from: usize = *pos;
            if from >= data.len() {
                let r: Vec<u8> = Vec::new();
                assert(r@ =~= Seq::<u8>::empty());
                r
            } else {
                let left: usize = data.len() - from;
                let n: usize = if left < count {
                    left
                } else {
                    count
                };
                let r = copy_range(data.as_slice(), from, from + n);
                assert(r@ =~= data@.skip(from as int).take(n as int));
                assert(data@.skip(from + n) =~= data@.skip(from as int).skip(n as int));
                *pos = from + n;
                r
            }
        },
        _ => {
            let r: Vec<u8> = Vec::new();
            assert(r@ =~= Seq::<u8>::empty());
            r
        },
    }
}

/// Reading a body piece by piece gives it whole: what one read leaves, the next
/// one starts with.
pub proof fn reads_follow_each_other(b: Body, after: Body, count: nat)
    requires
        unread(after) == unread(b).skip(read_len(b, count) as int),
    ensures
        unread(b).take(read_len(b, count) as int) + unread(after) == unread(b),
{
    assert(unread(b).take(read_len(b, count) as int) + unread(after) =~= unread(b));
}

/// The head that the engine's code and header lines make: the code, 200 where
/// none is recorded, unless a `Status` line names another; and every other line.
pub open spec fn script_head(code: i32, raw: Seq<Seq<u8>>) -> (u16, Seq<Line>) {
    let recorded: u16 = if code != 0 {
        (bits(code) % 65536) as u16
    } else {
        200
    };
    (
        committed_status(recorded, parsed_lines(raw)),
        parsed_lines(raw).filter(|l: Line| !status_line(l)),
    )
}

/// Records the engine's headers as the head of a response, once: a head that
/// was recorded before stands.
pub fn send_headers<F>(ctx: &mut Context<F>, code: i32, raw: &Vec<Vec<u8>>)
    ensures
        old(ctx).stream != StreamState::NotSent ==> *final(ctx) == *old(ctx),
        old(ctx).stream == StreamState::NotSent ==> {
            &&& final(ctx).head matches Some(h) && (h.status, lines(h.headers@)) == script_head(
                code,
                crate::spool::paths(raw@),
            )
            &&& final(ctx).stream == StreamState::HeadSent
            &&& final(ctx).req == old(ctx).req
            &&& final(ctx).c == old(ctx).c
            &&& final(ctx).sender == old(ctx).sender
            &&& final(ctx).body == old(ctx).body
            &&& final(ctx).tearing_down == old(ctx).tearing_down
        },
{
    if ctx.stream != StreamState::NotSent {
        return ;
    }
    let fields = header_lines(raw);
    ctx.commit_head(response_status(code), fields);
}

/// The cookie string of a request, where the CGI view has one.
pub fn read_cookies<F>(ctx: &Context<F>) -> (r: Option<&Vec<u8>>)
    ensures
        match r {
            Some(v) => ctx.c matches Some(c) && c.cookie == Some(*v),
            None => ctx.c matches Some(c) ==> c.cookie is None,
        },
{
    match &ctx.c {
        Some(c) => c.cookie.as_ref(),
        None => None,
    }
}

/// A read gives the next `count` bytes, or all that are left where there are
/// fewer; what comes after them is left for the next read.
pub proof fn a_read_gives_what_is_asked_for(data: Vec<u8>, pos: usize, count: nat)
    ensures
        ({
            let b = Body::Raw { data, pos };
            let n = read_len(b, count);
            &&& pos <= data@.len() && pos + count <= data@.len() ==> n == count
            &&& pos <= data@.len() && pos + count > data@.len() ==> n == data@.len() - pos
            &&& pos > data@.len() ==> n == 0
            &&& unread(b).len() == if pos <= data@.len() {
                data@.len() - pos
            } else {
                0
            }
            &&& forall|i: int| 0 <= i < unread(b).len() ==> #[trigger] unread(b)[i] == data@[pos + i]
        }),
{
}

} // verus!
