//! The HTTP front on the request side: which field names may pass, what a
//! request names as its authority, and how much body is taken in.

use vstd::prelude::*;
use vstd::utf8::encode_utf8;
use crate::cgi::{find_line, first_value};
use crate::context::unsigned_part;
use crate::fields::{ascii_text, copy_bytes, copy_text, line, lines, FieldLines, Line};
use crate::fold::{each_name_once, first_seen, occurs};
use crate::seqs::{lemma_filter_push, lemma_take_all, lemma_take_push};
use crate::text::{lower, lower_text, parse_chars, parsed_number, same_name};
use crate::types::{Addr, TlsView};
use crate::wire::texts;

verus! {

/// What happens to a field name that lands on a variable another name owns.
/// There is no way to let such names pass.
#[derive(Clone, Copy, Debug, PartialEq, Eq, Structural)]
pub enum UnsafeFieldNames {
    Drop,
    Reject,
}

/// A letter, a digit or a dash.
pub open spec fn safe_byte(b: u8) -> bool {
    0x30 <= b <= 0x39 || 0x41 <= b <= 0x5a || 0x61 <= b <= 0x7a || b == 0x2d
}

/// A name whose variable is its own: letters, digits and dashes only.
pub open spec fn safe_name(name: Seq<u8>) -> bool {
    forall|i: int| 0 <= i < name.len() ==> safe_byte(#[trigger] name[i])
}

/// Whether a name's variable is its own. A name with `_` or `.` lands on the
/// variable that a `-` name owns, so this allows rather than denies.
pub fn is_safe_field_name(name: &str) -> (r: bool)
    ensures
        r == safe_name(encode_utf8(name@)),
{
    let bytes: &[u8] = name.as_bytes();
    for i in 0..bytes.len()
        invariant
            bytes@ == encode_utf8(name@),
            forall|k: int| 0 <= k < i ==> safe_byte(#[trigger] bytes@[k]),
    {
        let b: u8 = bytes[i];
        if !((0x30 <= b && b <= 0x39) || (0x41 <= b && b <= 0x5a) || (0x61 <= b && b <= 0x7a) || b
            == 0x2d) {
            assert(!safe_byte(bytes@[i as int]));
            return false;
        }
    }
    true
}

/// A field line with a safe name.
pub open spec fn safe_line(l: Line) -> bool {
    safe_name(encode_utf8(l.0))
}

/// The refusal of a request with unsafe field names: how many there are, and
/// one of them in lower case.
pub struct UnsafeNames {
    pub count: usize,
    pub example: String,
}

impl UnsafeNames {
    /// The status that refuses such a request.
    pub fn status(&self) -> (r: u16)
        ensures
            r == 400,
    {
        400
    }
}

/// The unsafe names of a request, each once.
pub open spec fn unsafe_names(h: Seq<Line>) -> Seq<Seq<char>> {
    first_seen(h.filter(|l: Line| !safe_line(l)))
}

/// Applies the policy on unsafe field names. Dropping protects the variable
/// mapping only, so it is inert where no superglobals are served; rejecting
/// applies regardless.
pub fn field_name_filter(
    policy: UnsafeFieldNames,
    superglobals: bool,
    headers: FieldLines,
) -> (r: Result<FieldLines, UnsafeNames>)
    ensures
        policy == UnsafeFieldNames::Drop && !superglobals ==> r == Ok::<FieldLines, UnsafeNames>(
            headers,
        ),
        policy == UnsafeFieldNames::Drop && superglobals ==> (r matches Ok(h) && lines(h@) == lines(
            headers@,
        ).filter(|l: Line| safe_line(l))),
        policy == UnsafeFieldNames::Reject ==> {
            &&& r is Err <==> unsafe_names(lines(headers@)).len() > 0
            &&& r matches Ok(h) ==> h == headers
            &&& r matches Err(e) ==> e.count == unsafe_names(lines(headers@)).len() && e.example@
                == lower(unsafe_names(lines(headers@))[0])
        },
{
    match policy {
        UnsafeFieldNames::Drop => {
            if !superglobals {
                return Ok(headers);
            }
            Ok(drop_unsafe(headers))
        },
        UnsafeFieldNames::Reject => {
            let names = list_unsafe(&headers);
            if names.len() == 0 {
                Ok(headers)
            } else {
                assert(texts(names@)[0] == names@[0]@);
                Err(UnsafeNames { count: names.len(), example: lower_text(names[0].as_str()) })
            }
        },
    }
}

fn drop_unsafe(headers: FieldLines) -> (r: FieldLines)
    ensures
        lines(r@) == lines(headers@).filter(|l: Line| safe_line(l)),
{
    let ghost all = lines(headers@);
    let ghost keep = |l: Line| safe_line(l);
    let mut out: FieldLines = Vec::new();
    proof {
        reveal(Seq::filter);
        assert(lines(out@) =~= all.take(0).filter(keep));
    }
    for l in it: headers
        invariant
            all == lines(it.seq()),
            keep == (|l: Line| safe_line(l)),
            lines(out@) == all.take(it.index() as int).filter(keep),
    {
        let ghost before = out@;
        let ghost content = line(l);
        proof {
            lemma_take_push(all, it.index() as int);
            lemma_filter_push(all.take(it.index() as int), content, keep);
        }
        if is_safe_field_name(l.0.as_str()) {
            out.push(l);
            assert(lines(out@) =~= lines(before).push(content));
        }
    }
    proof {
        lemma_take_all(all);
    }
    out
}

fn list_unsafe(headers: &FieldLines) -> (r: Vec<String>)
    ensures
        texts(r@) == unsafe_names(lines(headers@)),
{
    let ghost all = lines(headers@);
    let ghost bad = |l: Line| !safe_line(l);
    let mut out: Vec<String> = Vec::new();
    proof {
        reveal(Seq::filter);
        assert(all.take(0).filter(bad) =~= Seq::empty());
        assert(texts(out@) =~= first_seen(all.take(0).filter(bad)));
    }
    for i in 0..headers.len()
        invariant
            all == lines(headers@),
            bad == (|l: Line| !safe_line(l)),
            texts(out@) == first_seen(all.take(i as int).filter(bad)),
    {
        let ghost h = all.take(i as int).filter(bad);
        let ghost l = all[i as int];
        proof {
            lemma_take_push(all, i as int);
            lemma_filter_push(all.take(i as int), l, bad);
            assert(h.push(l).drop_last() =~= h);
            each_name_once(h);
        }
        let name: &str = headers[i].0.as_str();
        if !is_safe_field_name(name) {
            let mut known = false;
            for k in 0..out.len()
                invariant
                    name@ == l.0,
                    known == exists|j: int|
                        0 <= j < k && same_name(#[trigger] texts(out@)[j], l.0),
            {
                assert(texts(out@)[k as int] == out@[k as int]@);
                if out[k].as_str().eq_ignore_ascii_case(name) {
                    known = true;
                }
            }
            proof {
                if known {
                    let j = choose|j: int|
                        0 <= j < texts(out@).len() && same_name(#[trigger] texts(out@)[j], l.0);
                    let n = first_seen(h)[j];
                    assert(occurs(n, h));
                    let m = choose|m: int| 0 <= m < h.len() && same_name((#[trigger] h[m]).0, n);
                    assert(same_name(h[m].0, l.0));
                }
                if occurs(l.0, h) {
                    let j = choose|j: int|
                        0 <= j < first_seen(h).len() && same_name(#[trigger] first_seen(h)[j], l.0);
                    assert(same_name(texts(out@)[j], l.0));
                }
            }
            if !known {
                let ghost before = out@;
                let own = copy_text(name);
                out.push(own);
                assert(texts(out@) =~= texts(before).push(l.0));
            }
        }
    }
    proof {
        lemma_take_all(all);
    }
    out
}

/// The protocol versions that a front tells apart.
#[derive(Clone, Copy, Debug, PartialEq, Eq, Structural)]
pub enum HttpVersion {
    Http09,
    Http10,
    Http11,
    Http2,
    Http3,
}

/// The wire spelling of a version.
pub open spec fn version_text(v: HttpVersion) -> Seq<char> {
    match v {
        HttpVersion::Http09 => "HTTP/0.9"@,
        HttpVersion::Http10 => "HTTP/1.0"@,
        HttpVersion::Http11 => "HTTP/1.1"@,
        HttpVersion::Http2 => "HTTP/2.0"@,
        HttpVersion::Http3 => "HTTP/3.0"@,
    }
}

/// The wire spelling of a version.
pub fn protocol_name(v: HttpVersion) -> (r: String)
    ensures
        r@ == version_text(v),
{
    match v {
        HttpVersion::Http09 => copy_text("HTTP/0.9"),
        HttpVersion::Http10 => copy_text("HTTP/1.0"),
        HttpVersion::Http11 => copy_text("HTTP/1.1"),
        HttpVersion::Http2 => copy_text("HTTP/2.0"),
        HttpVersion::Http3 => copy_text("HTTP/3.0"),
    }
}

/// The field section of a request: one entry per field line, in wire order. A
/// section without the sender's spelling holds names in lower case.
pub struct RequestFields {
    pub cased: bool,
    pub entries: FieldLines,
}

/// A line with its name in lower case.
pub open spec fn lowered(l: Line) -> Line {
    (lower(l.0), l.1)
}

/// The field lines as a script gets them: as sent, or in lower case where the
/// spelling was not kept.
pub open spec fn delivered_fields(f: RequestFields) -> Seq<Line> {
    if f.cased {
        lines(f.entries@)
    } else {
        lines(f.entries@).map_values(|l: Line| lowered(l))
    }
}

impl RequestFields {
    /// An empty section; `cased` keeps the sender's spelling.
    pub fn build(cased: bool) -> (r: RequestFields)
        ensures
            r.cased == cased,
            lines(r.entries@) == Seq::<Line>::empty(),
    {
        let entries: FieldLines = Vec::new();
        assert(lines(entries@) =~= Seq::<Line>::empty());
        RequestFields { cased, entries }
    }

    /// One more field line.
    pub fn append_header(&mut self, name: String, value: Vec<u8>)
        ensures
            final(self).cased == old(self).cased,
            lines(final(self).entries@) == lines(old(self).entries@).push((name@, value@)),
    {
        self.entries.push((name, value));
        assert(lines(self.entries@) =~= lines(old(self).entries@).push((name@, value@)));
    }
}

/// The field lines as a script gets them.
pub fn collect_headers(f: &RequestFields) -> (r: FieldLines)
    ensures
        lines(r@) == delivered_fields(*f),
{
    let ghost all = delivered_fields(*f);
    let mut r: FieldLines = Vec::new();
    assert(lines(r@) =~= all.take(0));
    for i in 0..f.entries.len()
        invariant
            all == delivered_fields(*f),
            all.len() == f.entries@.len(),
            lines(r@) == all.take(i as int),
    {
        let ghost before = r@;
        assert(lines(f.entries@)[i as int] == line(f.entries@[i as int]));
        let name: String = if f.cased {
            copy_text(f.entries[i].0.as_str())
        } else {
            lower_text(f.entries[i].0.as_str())
        };
        let value = copy_bytes(f.entries[i].1.as_slice());
        r.push((name, value));
        proof {
            lemma_take_push(all, i as int);
            assert(lines(r@) =~= lines(before).push((name@, value@)));
        }
    }
    proof {
        lemma_take_all(all);
    }
    r
}

/// Why a request's host is refused (RFC 9112 section 3.2).
#[derive(Clone, Copy, Debug, PartialEq, Eq, Structural)]
pub enum HostFault {
    /// More than one Host field line.
    Repeated,
    /// HTTP/1.1 with an empty Host.
    Empty,
    /// HTTP/1.1 without a Host.
    Missing,
}

/// A Host field line.
pub open spec fn host_line(l: Line) -> bool {
    same_name(l.0, "host"@)
}

/// What is wrong with a request's Host fields.
pub open spec fn host_fault(h: Seq<Line>, http11: bool) -> Option<HostFault> {
    let hosts = h.filter(|l: Line| host_line(l));
    if hosts.len() > 1 {
        Some(HostFault::Repeated)
    } else if http11 && hosts.len() == 0 {
        Some(HostFault::Missing)
    } else if http11 && hosts[0].1.len() == 0 {
        Some(HostFault::Empty)
    } else {
        None
    }
}

/// The authority that a request names; none where the value is empty or absent.
pub open spec fn named_authority(h: Seq<Line>) -> Option<Seq<u8>> {
    let hosts = h.filter(|l: Line| host_line(l));
    if hosts.len() > 0 && hosts[0].1.len() > 0 {
        Some(hosts[0].1)
    } else {
        None
    }
}

/// The authority that a request names, or why its host is refused.
pub fn authority(headers: &[(String, Vec<u8>)], http11: bool) -> (r: Result<
    Option<Vec<u8>>,
    HostFault,
>)
    ensures
        match host_fault(lines(headers@), http11) {
            Some(f) => r == Err::<Option<Vec<u8>>, HostFault>(f),
            None => r matches Ok(a) && match (a, named_authority(lines(headers@))) {
                (Some(x), Some(y)) => x@ == y,
                (None, None) => true,
                _ => false,
            },
        },
{
    let ghost all = lines(headers@);
    let ghost pick = |l: Line| host_line(l);
    let mut first: Option<usize> = None;
    proof {
        reveal(Seq::filter);
        assert(all.take(0).filter(pick) =~= Seq::empty());
    }
    for i in 0..headers.len()
        invariant
            all == lines(headers@),
            pick == (|l: Line| host_line(l)),
            match first {
                Some(k) => k < headers@.len() && all.take(i as int).filter(pick) == seq![
                    all[k as int],
                ],
                None => all.take(i as int).filter(pick).len() == 0,
            },
    {
        proof {
            lemma_take_push(all, i as int);
            lemma_filter_push(all.take(i as int), all[i as int], pick);
            assert(all[i as int] == line(headers@[i as int]));
        }
        if headers[i].0.as_str().eq_ignore_ascii_case("host") {
            if first.is_some() {
                proof {
                    assert(all =~= all.take(i + 1) + all.skip(i + 1));
                    Seq::filter_distributes_over_add(all.take(i + 1), all.skip(i + 1), pick);
                }
                return Err(HostFault::Repeated);
            }
            first = Some(i);
            assert(all.take(i + 1).filter(pick) =~= seq![all[i as int]]);
        }
    }
    proof {
        lemma_take_all(all);
    }
    match first {
        Some(k) => {
            assert(all[k as int] == line(headers@[k as int]));
            if headers[k].1.len() > 0 {
                Ok(Some(copy_bytes(headers[k].1.as_slice())))
            } else if http11 {
                Err(HostFault::Empty)
            } else {
                Ok(None)
            }
        },
        None => {
            if http11 {
                Err(HostFault::Missing)
            } else {
                Ok(None)
            }
        },
    }
}

/// The body length that a content-length value states, if it can be read as a
/// size; a sign may stand before the digits.
pub open spec fn stated_length(v: Seq<u8>) -> Option<nat> {
    parsed_number(ascii_text(unsigned_part(v)), usize::MAX as nat)
}

fn read_stated(v: &[u8]) -> (r: Option<usize>)
    ensures
        r is Some <==> stated_length(v@) is Some,
        r matches Some(n) ==> stated_length(v@) == Some(n as nat),
{
    let mut chars: Vec<char> = Vec::new();
    let from: usize = if v.len() > 1 && v[0] == 0x2b {
        1
    } else {
        0
    };
    let ghost tail = ascii_text(unsigned_part(v@));
    assert(tail =~= ascii_text(v@).skip(from as int));
    for k in from..v.len()
        invariant
            from <= v@.len(),
            chars@ == ascii_text(v@).subrange(from as int, k as int),
    {
        chars.push(v[k] as char);
        assert(chars@ =~= ascii_text(v@).subrange(from as int, k as int + 1));
    }
    assert(chars@ =~= tail);
    match parse_chars(chars.as_slice(), usize::MAX as u64) {
        Some(n) => Some(n as usize),
        None => None,
    }
}

/// What becomes of a request before its body is read.
#[derive(Clone, Copy, Debug, PartialEq, Eq, Structural)]
pub enum Intake {
    /// The stated body is larger than the host takes.
    TooLarge,
    /// Read the body; `proceed` asks for a 100 first, `reserve` is how much
    /// room to make.
    Read { proceed: bool, reserve: usize },
}

/// The length that a request's content-length states.
pub open spec fn request_length(h: Seq<Line>) -> Option<nat> {
    match first_value(h, "content-length"@) {
        Some(v) => stated_length(v),
        None => None,
    }
}

/// Whether a request waits for a 100. An HTTP/1.0 request's expectation is
/// ignored (RFC 9110 section 10.1.1).
pub open spec fn waits_for_continue(h: Seq<Line>, v: HttpVersion) -> bool {
    v == HttpVersion::Http11 && (first_value(h, "expect"@) matches Some(e) && same_name(
        ascii_text(e),
        "100-continue"@,
    ))
}

fn ascii_string(b: &[u8]) -> (r: String)
    ensures
        r@ == ascii_text(b@),
{
    let mut r = String::new();
    assert(r@ =~= ascii_text(b@).take(0));
    for i in 0..b.len()
        invariant
            r@ == ascii_text(b@).take(i as int),
    {
        r.push(b[i] as char);
        assert(r@ =~= ascii_text(b@).take(i + 1));
    }
    assert(ascii_text(b@).take(b@.len() as int) =~= ascii_text(b@));
    r
}

/// Decides on a request before its body is read.
pub fn intake(headers: &[(String, Vec<u8>)], v: HttpVersion, max_body_size: usize) -> (r: Intake)
    ensures
        r == (if request_length(lines(headers@)) matches Some(n) && n > max_body_size {
            Intake::TooLarge
        } else {
            Intake::Read {
                proceed: waits_for_continue(lines(headers@), v),
                reserve: match request_length(lines(headers@)) {
                    Some(n) => n as usize,
                    None => 0,
                },
            }
        }),
{
    let declared: Option<usize> = match find_line(headers, "content-length") {
        Some(i) => read_stated(headers[i].1.as_slice()),
        None => None,
    };
    if let Some(n) = declared {
        if n > max_body_size {
            return Intake::TooLarge;
        }
    }
    let proceed = v == HttpVersion::Http11 && match find_line(headers, "expect") {
        Some(i) => {
            let text = ascii_string(headers[i].1.as_slice());
            text.as_str().eq_ignore_ascii_case("100-continue")
        },
        None => false,
    };
    Intake::Read {
        proceed,
        reserve: match declared {
            Some(n) => n,
            None => 0,
        },
    }
}

/// Takes in one more piece of a body. False, with the body unchanged, when it
/// would grow past the limit.
pub fn append_body(body: &mut Vec<u8>, chunk: &[u8], max_body_size: usize) -> (r: bool)
    ensures
        r == (old(body)@.len() + chunk@.len() <= max_body_size),
        r ==> final(body)@ == old(body)@ + chunk@,
        !r ==> final(body)@ == old(body)@,
{
    if chunk.len() > max_body_size || body.len() > max_body_size - chunk.len() {
        return false;
    }
    body.extend_from_slice(chunk);
    assert(body@ =~= old(body)@ + chunk@);
    true
}

/// The peer's address. A unix listener's peer may be unnamed; a network
/// connection without one is refused.
pub fn remote_for(peer: Option<Addr>, unix_listener: bool) -> (r: Option<Addr>)
    ensures
        match peer {
            Some(a) => r == Some(a),
            None => if unix_listener {
                r == Some(Addr::Unix(None))
            } else {
                r is None
            },
        },
{
    match peer {
        Some(a) => Some(a),
        None => {
            if unix_listener {
                Some(Addr::Unix(None))
            } else {
                None
            }
        },
    }
}

/// The accepting socket's address, else the one that was listened on.
pub fn server_for(socket: Option<Addr>, listen: Addr) -> (r: Addr)
    ensures
        r == (match socket {
            Some(a) => a,
            None => listen,
        }),
{
    match socket {
        Some(a) => a,
        None => listen,
    }
}

/// A request as a front hands it on.
pub struct FrontRequest {
    pub method: String,
    pub uri: String,
    pub target: Option<Vec<u8>>,
    pub authority: Option<Vec<u8>>,
    pub https: bool,
    pub protocol: String,
    pub remote: Addr,
    pub server: Addr,
    pub server_name: String,
    pub server_port: u16,
    pub tls: Option<TlsView>,
    pub received_at: Option<u64>,
    pub headers: FieldLines,
    pub body: Vec<u8>,
}

/// The request line and connection of a request.
pub struct RequestLine {
    pub method: String,
    pub uri: String,
    pub target: Option<Vec<u8>>,
    pub version: HttpVersion,
    pub https: bool,
    pub remote: Addr,
    pub server: Addr,
    /// Unix seconds as the bits of a double.
    pub received_at: u64,
}

/// A request is the open one, with the server's name and port.
pub open spec fn builds(
    r: FrontRequest,
    open: OpenRequest,
    server_name: Seq<char>,
    server_port: u16,
) -> bool {
    &&& r.method == open.start.method
    &&& r.uri == open.start.uri
    &&& r.target == open.start.target
    &&& r.authority == open.authority
    &&& r.https == open.start.https
    &&& r.protocol@ == version_text(open.start.version)
    &&& r.remote == open.start.remote
    &&& r.server == open.start.server
    &&& r.server_name@ == server_name
    &&& r.server_port == server_port
    &&& r.tls is None
    &&& r.received_at == Some(open.start.received_at)
    &&& r.headers == open.headers
    &&& r.body == open.body
}

/// Puts a request together once its body was read.
pub fn build_request(open: OpenRequest, server_name: &str, server_port: u16) -> (r: FrontRequest)
    ensures
        builds(r, open, server_name@, server_port),
{
    FrontRequest {
        method: open.start.method,
        uri: open.start.uri,
        target: open.start.target,
        authority: open.authority,
        https: open.start.https,
        protocol: protocol_name(open.start.version),
        remote: open.start.remote,
        server: open.start.server,
        server_name: copy_text(server_name),
        server_port,
        tls: None,
        received_at: Some(open.start.received_at),
        headers: open.headers,
        body: open.body,
    }
}

/// A front's settings.
pub struct FrontConfig {
    pub server_name: String,
    pub server_port: u16,
    pub max_body_size: usize,
    pub unsafe_field_names: UnsafeFieldNames,
    /// The pool behind the front serves superglobals.
    pub superglobals: bool,
    /// Bound on one write of a response, in seconds.
    pub write_timeout_secs: u64,
    /// How long a drain may take, in seconds; it must end before the host
    /// escalates its stop.
    pub drain_grace_secs: u64,
}

impl Default for FrontConfig {
    fn default() -> (r: FrontConfig)
        ensures
            r.server_name@ == "localhost"@,
            r.server_port == 8000,
            r.max_body_size == 8_388_608,
            r.unsafe_field_names == UnsafeFieldNames::Drop,
            r.superglobals,
            r.write_timeout_secs == 30,
            r.drain_grace_secs == 25,
    {
        FrontConfig {
            server_name: copy_text("localhost"),
            server_port: 8000,
            max_body_size: 8_388_608,
            unsafe_field_names: UnsafeFieldNames::Drop,
            superglobals: true,
            write_timeout_secs: 30,
            drain_grace_secs: 25,
        }
    }
}

/// A request whose head arrived.
pub struct Arrival {
    pub method: String,
    pub uri: String,
    pub target: Option<Vec<u8>>,
    pub version: HttpVersion,
    pub https: bool,
    pub fields: RequestFields,
    /// The peer's address, where the connection has one.
    pub peer: Option<Addr>,
    /// The accepting socket's own address, where it is known.
    pub socket: Option<Addr>,
    /// The address that was listened on.
    pub listen: Addr,
    /// Unix seconds as the bits of a double.
    pub received_at: u64,
}

/// Why a request is refused before its body is read.
#[derive(Clone, Copy, Debug, PartialEq, Eq, Structural)]
pub enum Refusal {
    Host(HostFault),
    /// The stated body is larger than the host takes.
    TooLarge,
    /// A network connection without a peer address; `proceed` says that the
    /// client was told to go on before that was noticed.
    NoPeer { proceed: bool },
}

impl Refusal {
    /// The status that answers the request.
    pub open spec fn answer(self) -> u16 {
        match self {
            Refusal::Host(_) => 400,
            Refusal::TooLarge => 413,
            Refusal::NoPeer { .. } => 500,
        }
    }

    /// The status that answers the request.
    pub fn status(self) -> (r: u16)
        ensures
            r == self.answer(),
    {
        match self {
            Refusal::Host(_) => 400,
            Refusal::TooLarge => 413,
            Refusal::NoPeer { proceed: _ } => 500,
        }
    }
}

/// Why a request is refused before its body is read: the host first, then the
/// stated length, then the peer.
pub open spec fn arrival_fault(a: Arrival, max_body_size: usize) -> Option<Refusal> {
    let h = delivered_fields(a.fields);
    if host_fault(h, a.version == HttpVersion::Http11) is Some {
        Some(Refusal::Host(host_fault(h, a.version == HttpVersion::Http11)->0))
    } else if request_length(h) matches Some(n) && n > max_body_size {
        Some(Refusal::TooLarge)
    } else if a.peer is None && !(a.listen is Unix) {
        Some(Refusal::NoPeer { proceed: waits_for_continue(h, a.version) })
    } else {
        None
    }
}

/// A request whose body is being read.
pub struct OpenRequest {
    pub start: RequestLine,
    pub authority: Option<Vec<u8>>,
    pub headers: FieldLines,
    /// The client waits for a 100 before it sends the body.
    pub proceed: bool,
    /// How much room the body was announced to need.
    pub reserve: usize,
    pub body: Vec<u8>,
}

/// An open request is the one that arrived.
pub open spec fn opens(o: OpenRequest, a: Arrival) -> bool {
    let h = delivered_fields(a.fields);
    &&& o.start.method == a.method
    &&& o.start.uri == a.uri
    &&& o.start.target == a.target
    &&& o.start.version == a.version
    &&& o.start.https == a.https
    &&& o.start.received_at == a.received_at
    &&& match a.peer {
        Some(p) => o.start.remote == p,
        None => o.start.remote == Addr::Unix(None),
    }
    &&& match a.socket {
        Some(s) => o.start.server == s,
        None => o.start.server == a.listen,
    }
    &&& match (o.authority, named_authority(h)) {
        (Some(x), Some(y)) => x@ == y,
        (None, None) => true,
        _ => false,
    }
    &&& lines(o.headers@) == h
    &&& o.proceed == waits_for_continue(h, a.version)
    &&& o.reserve == match request_length(h) {
        Some(n) => n as usize,
        None => 0,
    }
    &&& o.body@.len() == 0
}

/// Opens a request whose head arrived, or says why it is refused.
pub fn begin_request(a: Arrival, max_body_size: usize) -> (r: Result<OpenRequest, Refusal>)
    ensures
        match arrival_fault(a, max_body_size) {
            Some(f) => r == Err::<OpenRequest, Refusal>(f),
            None => r matches Ok(o) && opens(o, a),
        },
{
    let headers = collect_headers(&a.fields);
    let http11 = a.version == HttpVersion::Http11;
    let authority: Option<Vec<u8>> = match authority(headers.as_slice(), http11) {
        Ok(x) => x,
        Err(f) => {
            return Err(Refusal::Host(f));
        },
    };
    let (proceed, reserve): (bool, usize) = match intake(
        headers.as_slice(),
        a.version,
        max_body_size,
    ) {
        Intake::TooLarge => {
            return Err(Refusal::TooLarge);
        },
        Intake::Read { proceed, reserve } => (proceed, reserve),
    };
    let unix_listener = match &a.listen {
        Addr::Unix(_) => true,
        Addr::Inet { .. } => false,
    };
    let remote: Addr = match remote_for(a.peer, unix_listener) {
        Some(x) => x,
        None => {
            return Err(Refusal::NoPeer { proceed });
        },
    };
    let server = server_for(a.socket, a.listen);
    Ok(
        OpenRequest {
            start: RequestLine {
                method: a.method,
                uri: a.uri,
                target: a.target,
                version: a.version,
                https: a.https,
                remote,
                server,
                received_at: a.received_at,
            },
            authority,
            headers,
            proceed,
            reserve,
            body: Vec::new(),
        },
    )
}

impl OpenRequest {
    /// Takes in one more piece of the body; false, and nothing taken in, where
    /// it would grow past the limit.
    pub fn take_in(&mut self, chunk: &[u8], max_body_size: usize) -> (r: bool)
        ensures
            r == (old(self).body@.len() + chunk@.len() <= max_body_size),
            final(self).body@ == (if r {
                old(self).body@ + chunk@
            } else {
                old(self).body@
            }),
            final(self).start == old(self).start,
            final(self).authority == old(self).authority,
            final(self).headers == old(self).headers,
            final(self).proceed == old(self).proceed,
            final(self).reserve == old(self).reserve,
    {
        append_body(&mut self.body, chunk, max_body_size)
    }
}

} // verus!
