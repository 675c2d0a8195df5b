//! A request on its way from the wire to the script: what arrived is what the
//! script sees.

use vstd::prelude::*;
use vstd::utf8::encode_utf8;
use crate::cgi::opt_bytes;
use crate::exchange::{absolute_uri, body_spools, ExchangeState};
use crate::fields::{ascii_text, lines, Line};
use crate::fold::{each_name_once, first_seen, folded, lemma_fold_known, lemma_fold_new, occurs};
use crate::front::{
    arrival_fault, builds, delivered_fields, host_fault, host_line, named_authority, opens,
    safe_byte, safe_line, safe_name, stated_length, unsafe_names, waits_for_continue, Arrival,
    FrontRequest, HostFault, HttpVersion, OpenRequest,
};
use crate::grouped::{
    byte_lines, grouped, keys, keys_are_the_names, lemma_group_known, lemma_group_new,
    lemma_group_skip, named, usable, Group,
};
use crate::request_graph::{shows_request, AddressObject, BodyObject, RequestObject};
use crate::reply::ExecFault;
use crate::runtime::{
    body_plan, first_multipart, lower_byte, maps_request, multipart_value, parse_fault, type_line,
    type_lines, BodyPlan, ParseError, ScriptVars,
};
use crate::seqs::lemma_filter_push;
use crate::server_laws::the_first_line_of_a_name_counts;
use crate::text::{decimal, lossy, lower, lower_char, same_name};
use crate::types::{Addr, Body, MultipartBody, Request};

verus! {

/// A repeated Host line refuses a request of any version.
pub proof fn two_hosts_are_refused(h: Seq<Line>, i: int, j: int, http11: bool)
    requires
        0 <= i < j < h.len(),
        same_name(h[i].0, "host"@),
        same_name(h[j].0, "host"@),
    ensures
        host_fault(h, http11) == Some(HostFault::Repeated),
{
    let pick = |l: Line| host_line(l);
    let a = h.take(j);
    let b = h.skip(j);
    assert(h =~= a + b);
    Seq::filter_distributes_over_add(a, b, pick);
    lemma_some_kept(a, pick, i);
    lemma_some_kept(b, pick, 0);
}

proof fn lemma_some_kept<A>(s: Seq<A>, pred: spec_fn(A) -> bool, i: int)
    requires
        0 <= i < s.len(),
        pred(s[i]),
    ensures
        s.filter(pred).len() >= 1,
    decreases s.len(),
{
    reveal(Seq::filter);
    if i < s.len() - 1 {
        lemma_some_kept(s.drop_last(), pred, i);
    }
}

proof fn lemma_one_kept<A>(s: Seq<A>, pred: spec_fn(A) -> bool, i: int)
    requires
        0 <= i < s.len(),
        pred(s[i]),
        forall|j: int| 0 <= j < s.len() && j != i ==> !pred(#[trigger] s[j]),
    ensures
        s.filter(pred) == seq![s[i]],
    decreases s.len(),
{
    reveal(Seq::filter);
    let t = s.drop_last();
    if i < s.len() - 1 {
        assert(!pred(s[s.len() - 1]));
        assert forall|j: int| 0 <= j < t.len() && j != i implies !pred(#[trigger] t[j]) by {
            assert(t[j] == s[j]);
        }
        lemma_one_kept(t, pred, i);
    } else {
        assert forall|j: int| 0 <= j < t.len() implies !pred(#[trigger] t[j]) by {
            assert(t[j] == s[j]);
        }
        lemma_nothing_kept(t, pred);
        assert(s.filter(pred) =~= seq![s[i]]);
    }
}

proof fn lemma_nothing_kept<A>(s: Seq<A>, pred: spec_fn(A) -> bool)
    requires
        forall|j: int| 0 <= j < s.len() ==> !pred(#[trigger] s[j]),
    ensures
        s.filter(pred) == Seq::<A>::empty(),
    decreases s.len(),
{
    reveal(Seq::filter);
    if s.len() > 0 {
        assert(!pred(s[s.len() - 1]));
        lemma_nothing_kept(s.drop_last(), pred);
    }
    assert(s.filter(pred) =~= Seq::<A>::empty());
}

/// One Host line names the authority, byte for byte; an empty one names none,
/// and HTTP/1.1 refuses it.
pub proof fn one_host_is_the_authority(h: Seq<Line>, i: int, http11: bool)
    requires
        0 <= i < h.len(),
        same_name(h[i].0, "host"@),
        forall|j: int| 0 <= j < h.len() && j != i ==> !same_name((#[trigger] h[j]).0, "host"@),
    ensures
        h[i].1.len() > 0 ==> host_fault(h, http11) is None && named_authority(h) == Some(h[i].1),
        h[i].1.len() == 0 ==> named_authority(h) is None,
        h[i].1.len() == 0 && http11 ==> host_fault(h, http11) == Some(HostFault::Empty),
        h[i].1.len() == 0 && !http11 ==> host_fault(h, http11) is None,
{
    lemma_one_kept(h, |l: Line| host_line(l), i);
}

/// Without a Host line there is no authority, and HTTP/1.1 refuses the request.
pub proof fn no_host_is_no_authority(h: Seq<Line>, http11: bool)
    requires
        forall|j: int| 0 <= j < h.len() ==> !same_name((#[trigger] h[j]).0, "host"@),
    ensures
        named_authority(h) is None,
        http11 ==> host_fault(h, http11) == Some(HostFault::Missing),
        !http11 ==> host_fault(h, http11) is None,
{
    lemma_nothing_kept(h, |l: Line| host_line(l));
}

/// A request is refused before its body is read: 400 for its host, else 413 for
/// a stated length above the limit, else 500 where a network peer has no
/// address; any other request is taken in. A client is told to go on only on
/// HTTP/1.1, and only where its first `Expect` line asks for that.
pub proof fn requests_are_refused_in_order(a: Arrival, max_body_size: usize, k: int)
    requires
        0 <= k <= delivered_fields(a.fields).len(),
        forall|j: int|
            0 <= j < k ==> !same_name(
                (#[trigger] delivered_fields(a.fields)[j]).0,
                "content-length"@,
            ),
        k < delivered_fields(a.fields).len() ==> same_name(
            delivered_fields(a.fields)[k].0,
            "content-length"@,
        ),
    ensures
        ({
            let h = delivered_fields(a.fields);
            let fault = arrival_fault(a, max_body_size);
            let bad_host = host_fault(h, a.version == HttpVersion::Http11) is Some;
            let too_large = k < h.len() && (stated_length(h[k].1) matches Some(n) && n
                > max_body_size);
            let no_peer = a.peer is None && a.listen is Inet;
            &&& fault is Some <==> bad_host || too_large || no_peer
            &&& bad_host ==> fault->0.answer() == 400
            &&& !bad_host && too_large ==> fault->0.answer() == 413
            &&& !bad_host && !too_large && no_peer ==> fault->0.answer() == 500
        }),
{
    let h = delivered_fields(a.fields);
    the_first_line_of_a_name_counts(h, "content-length"@, k);
}

/// What a request expects is what its first `Expect` line says, in whatever
/// case, and only on HTTP/1.1.
pub proof fn only_http11_waits_for_a_continue(h: Seq<Line>, v: HttpVersion, k: int)
    requires
        0 <= k <= h.len(),
        forall|j: int| 0 <= j < k ==> !same_name((#[trigger] h[j]).0, "expect"@),
        k < h.len() ==> same_name(h[k].0, "expect"@),
    ensures
        waits_for_continue(h, v) <==> v == HttpVersion::Http11 && k < h.len() && same_name(
            ascii_text(h[k].1),
            "100-continue"@,
        ),
{
    the_first_line_of_a_name_counts(h, "expect"@, k);
}

/// A field name is safe exactly when it is made of ASCII letters, digits and
/// hyphens.
pub proof fn safe_names_are_letters_digits_and_hyphens(name: Seq<u8>)
    ensures
        safe_name(name) <==> forall|i: int|
            0 <= i < name.len() ==> {
                ||| 97 <= #[trigger] name[i] && name[i] <= 122
                ||| 65 <= name[i] && name[i] <= 90
                ||| 48 <= name[i] && name[i] <= 57
                ||| name[i] == 45
            },
{
    if safe_name(name) {
        assert forall|i: int| 0 <= i < name.len() implies {
            ||| 97 <= #[trigger] name[i] && name[i] <= 122
            ||| 65 <= name[i] && name[i] <= 90
            ||| 48 <= name[i] && name[i] <= 57
            ||| name[i] == 45
        } by {
            assert(safe_byte(name[i]));
        }
    }
}

/// A request has an unsafe name to report exactly when some line has one, and
/// the one that is reported first is the first on the wire.
pub proof fn the_first_unsafe_name_is_reported(h: Seq<Line>, k: int)
    requires
        0 <= k <= h.len(),
        forall|j: int| 0 <= j < k ==> safe_line(#[trigger] h[j]),
        k < h.len() ==> !safe_line(h[k]),
    ensures
        unsafe_names(h).len() > 0 <==> k < h.len(),
        k < h.len() ==> unsafe_names(h)[0] == h[k].0,
{
    let bad = |l: Line| !safe_line(l);
    let a = h.take(k);
    let b = h.skip(k);
    assert(h =~= a + b);
    Seq::filter_distributes_over_add(a, b, bad);
    lemma_nothing_kept(a, bad);
    assert(Seq::<Line>::empty() + b.filter(bad) =~= b.filter(bad));
    if k < h.len() {
        lemma_first_kept(b, bad);
        lemma_first_seen_first(b.filter(bad));
    } else {
        lemma_nothing_kept(b, bad);
    }
}

proof fn lemma_first_kept<A>(s: Seq<A>, pred: spec_fn(A) -> bool)
    requires
        s.len() > 0,
        pred(s[0]),
    ensures
        s.filter(pred).len() > 0,
        s.filter(pred)[0] == s[0],
    decreases s.len(),
{
    reveal(Seq::filter);
    if s.len() > 1 {
        lemma_first_kept(s.drop_last(), pred);
    }
}

proof fn lemma_first_seen_first(h: Seq<Line>)
    requires
        h.len() > 0,
    ensures
        first_seen(h).len() > 0,
        first_seen(h)[0] == h[0].0,
    decreases h.len(),
{
    if h.len() > 1 {
        lemma_first_seen_first(h.drop_last());
        assert(h.drop_last()[0] == h[0]);
    } else {
        assert(h.drop_last() =~= Seq::empty());
        assert(first_seen(h.drop_last()) =~= Seq::empty());
        assert(!occurs(h.last().0, h.drop_last()));
    }
}

/// What a front hands on is what arrived: the method, the target and the
/// connection as they came, the version in its wire spelling, every field line in
/// order, with the sender's spelling where it was kept and in lower case where
/// not, and the body that was read.
pub proof fn a_front_hands_on_what_arrived(
    a: Arrival,
    o: OpenRequest,
    read: OpenRequest,
    f: FrontRequest,
    server_name: Seq<char>,
    server_port: u16,
)
    requires
        opens(o, a),
        read.start == o.start,
        read.authority == o.authority,
        read.headers == o.headers,
        builds(f, read, server_name, server_port),
    ensures
        f.method == a.method,
        f.uri == a.uri,
        f.target == a.target,
        f.https == a.https,
        f.server_name@ == server_name,
        f.server_port == server_port,
        f.received_at == Some(a.received_at),
        f.tls is None,
        f.body == read.body,
        a.version == HttpVersion::Http10 ==> f.protocol@ == "HTTP/1.0"@,
        a.version == HttpVersion::Http11 ==> f.protocol@ == "HTTP/1.1"@,
        a.version == HttpVersion::Http2 ==> f.protocol@ == "HTTP/2.0"@,
        a.version == HttpVersion::Http3 ==> f.protocol@ == "HTTP/3.0"@,
        a.peer matches Some(p) ==> f.remote == p,
        a.peer is None ==> f.remote == Addr::Unix(None),
        a.socket matches Some(s) ==> f.server == s,
        a.socket is None ==> f.server == a.listen,
        f.headers@.len() == a.fields.entries@.len(),
        forall|i: int|
            0 <= i < f.headers@.len() ==> {
                &&& (#[trigger] f.headers@[i]).1@ == a.fields.entries@[i].1@
                &&& a.fields.cased ==> f.headers@[i].0@ == a.fields.entries@[i].0@
                &&& !a.fields.cased ==> f.headers@[i].0@ == lower(a.fields.entries@[i].0@)
            },
        opt_bytes(f.authority) == named_authority(lines(f.headers@)),
{
    let h = delivered_fields(a.fields);
    assert(lines(f.headers@) == h);
    assert(f.headers@.len() == lines(f.headers@).len());
    assert(h.len() == a.fields.entries@.len());
    assert forall|i: int| 0 <= i < f.headers@.len() implies {
        &&& (#[trigger] f.headers@[i]).1@ == a.fields.entries@[i].1@
        &&& a.fields.cased ==> f.headers@[i].0@ == a.fields.entries@[i].0@
        &&& !a.fields.cased ==> f.headers@[i].0@ == lower(a.fields.entries@[i].0@)
    } by {
        assert(lines(f.headers@)[i] == (f.headers@[i].0@, f.headers@[i].1@));
        let e = a.fields.entries@;
        assert(lines(e)[i] == (e[i].0@, e[i].1@));
    }
}

/// A worker gets the front's request: nothing is lost or changed, an empty
/// target or authority counts as none, and what concerns the script is the
/// pool's.
pub proof fn a_worker_gets_the_fronts_request(
    f: FrontRequest,
    script: ScriptVars,
    parsed: Option<MultipartBody>,
    r: Request,
    k: int,
)
    requires
        maps_request(r, f, script, parsed),
        0 <= k <= f.headers@.len(),
        forall|j: int|
            0 <= j < k ==> !same_name((#[trigger] f.headers@[j]).0@, "content-type"@),
        k < f.headers@.len() ==> same_name(f.headers@[k].0@, "content-type"@),
    ensures
        r.method@ == f.method@,
        r.uri@ == f.uri@,
        r.https == f.https,
        r.protocol@ == f.protocol@,
        r.remote == f.remote,
        r.server == f.server,
        r.server_name@ == f.server_name@,
        r.server_port == f.server_port,
        r.headers@ == f.headers@,
        r.received_at == f.received_at,
        r.tls == f.tls,
        r.script_name@ == script.script_name@,
        r.document_root@ == script.document_root@,
        r.script_filename@ == script.script_filename@,
        r.server_vars@.len() == 0,
        f.target matches Some(t) && t@.len() > 0 ==> r.target == f.target,
        (f.target matches Some(t) ==> t@.len() == 0) ==> r.target is None,
        f.authority matches Some(t) && t@.len() > 0 ==> r.authority == f.authority,
        (f.authority matches Some(t) ==> t@.len() == 0) ==> r.authority is None,
        k == f.headers@.len() ==> r.content_type is None,
        k < f.headers@.len() ==> (r.content_type matches Some(v) && v@ == f.headers@[k].1@),
        f.body@.len() <= i64::MAX ==> r.content_length == f.body@.len(),
        parsed is None ==> (r.body matches Body::Raw { data, pos } && data@ == f.body@ && pos == 0),
        parsed matches Some(m) ==> r.body == Body::Multipart(m),
{
    let h = lines(f.headers@);
    assert forall|j: int| 0 <= j < k implies !same_name((#[trigger] h[j]).0, "content-type"@) by {
        assert(!same_name(f.headers@[j].0@, "content-type"@));
    }
    the_first_line_of_a_name_counts(h, "content-type"@, k);
}

/// The absolute URI names the scheme of the connection, then what the client
/// named as its host, else the address it reached, then the target where that is
/// a path, else the root.
pub proof fn the_absolute_uri_is_scheme_host_and_path(r: Request)
    ensures
        ({
            let scheme = if r.https {
                "https://"@
            } else {
                "http://"@
            };
            let path = if r.uri@.len() > 0 && r.uri@[0] == '/' {
                r.uri@
            } else {
                "/"@
            };
            let uri = absolute_uri(r);
            &&& r.authority matches Some(a) ==> uri == scheme + lossy(a@) + path
            &&& r.authority is None ==> match r.server {
                Addr::Inet { ip, v6: false, port, .. } => uri == scheme + (ip@ + ":"@ + decimal(
                    port as nat,
                )) + path,
                Addr::Inet { ip, v6: true, scope_id: 0, port } => uri == scheme + ("["@ + ip@
                    + "]:"@ + decimal(port as nat)) + path,
                Addr::Inet { ip, v6: true, scope_id, port } => uri == scheme + ("["@ + ip@ + "%"@
                    + decimal(scope_id as nat) + "]:"@ + decimal(port as nat)) + path,
                Addr::Unix(_) => uri == scheme + (r.server_name@ + ":"@ + decimal(
                    r.server_port as nat,
                )) + path,
            }
        }),
{
}

/// An address object names the endpoint: the IP and port of a network one, the
/// path of a named unix one, and nothing of an unnamed one.
pub open spec fn names_endpoint(o: AddressObject, a: Addr) -> bool {
    match a {
        Addr::Inet { ip, port, .. } => o matches AddressObject::Inet { ip: i, port: p } && i@
            == encode_utf8(ip@) && p == port,
        Addr::Unix(None) => o matches AddressObject::Unix { path } && path is None,
        Addr::Unix(Some(n)) => o matches AddressObject::Unix { path } && if n@.len() == 0 {
            path is None
        } else {
            path matches Some(p) && p@ == n@
        },
    }
}

/// A script of the dispatcher sees its request: every property of the request
/// object is that of the request.
pub proof fn a_script_sees_its_request<F>(
    r: Request,
    open: bool,
    st: ExchangeState<F>,
    o: RequestObject,
)
    requires
        st.opened_for(r, open),
        shows_request(o, st),
    ensures
        o.method@ == encode_utf8(r.method@),
        o.uri@ == encode_utf8(absolute_uri(r)),
        r.target matches Some(t) ==> o.target@ == t@,
        r.target is None ==> o.target@ == encode_utf8(r.uri@),
        opt_bytes(o.authority) == opt_bytes(r.authority),
        r.protocol@ == "HTTP/1.0"@ ==> o.protocol@ == encode_utf8("HTTP/1.0"@),
        r.protocol@ == "HTTP/1.1"@ ==> o.protocol@ == encode_utf8("HTTP/1.1"@),
        r.protocol@ == "HTTP/2.0"@ ==> o.protocol@ == encode_utf8("HTTP/2"@),
        r.protocol@ == "HTTP/3.0"@ ==> o.protocol@ == encode_utf8("HTTP/3"@),
        o.headers@ == grouped(lines(r.headers@)),
        names_endpoint(o.remote, r.remote),
        names_endpoint(o.server, r.server),
        r.received_at matches Some(t) ==> o.received_at == t,
        r.received_at is None ==> o.received_at == 0,
        o.tls is Some <==> r.tls is Some,
        r.tls matches Some(t) ==> {
            let x = o.tls->0;
            &&& x.version@ == encode_utf8(t.version@)
            &&& x.cipher@ == encode_utf8(t.cipher@)
            &&& x.negotiated_protocol is Some <==> t.alpn is Some
            &&& t.alpn matches Some(v) ==> x.negotiated_protocol->0@ == encode_utf8(v@)
            &&& x.requested_server_name is Some <==> t.server_name is Some
            &&& t.server_name matches Some(v) ==> x.requested_server_name->0@ == encode_utf8(v@)
            &&& x.cert_serial is Some <==> t.cert is Some
            &&& x.cert_fingerprint is Some <==> t.cert is Some
            &&& t.cert matches Some(c) ==> {
                &&& x.cert_serial->0@ == encode_utf8(c.serial@)
                &&& x.cert_fingerprint->0@ == encode_utf8(c.fingerprint@)
                &&& x.cert_organization is Some <==> c.organization is Some
                &&& c.organization matches Some(v) ==> x.cert_organization->0@ == encode_utf8(v@)
            }
            &&& t.cert is None ==> x.cert_organization is None
        },
        r.body matches Body::Raw { data, pos } ==> (pos == 0 ==> (o.body matches BodyObject::Text(v)
            && v@ == data@)),
        r.body matches Body::Multipart(m) ==> (o.body matches BodyObject::Multipart {
            fields,
            files,
        } && {
            &&& fields@.len() == m.fields@.len()
            &&& forall|i: int|
                0 <= i < fields@.len() ==> (#[trigger] fields@[i]).name@ == m.fields@[i].name@
                    && fields@[i].value@ == m.fields@[i].value@ && fields@[i].headers@ == grouped(
                    lines(m.fields@[i].headers@),
                )
            &&& files@.len() == m.files@.len()
            &&& forall|i: int|
                0 <= i < files@.len() ==> {
                    &&& (#[trigger] files@[i]).name@ == m.files@[i].name@
                    &&& files@[i].client_filename@ == m.files@[i].client_filename@
                    &&& opt_bytes(files@[i].client_media_type) == opt_bytes(
                        m.files@[i].client_media_type,
                    )
                    &&& files@[i].tmp_path@ == m.files@[i].file.path@
                    &&& m.files@[i].size <= i64::MAX ==> files@[i].size == m.files@[i].size
                    &&& files@[i].headers@ == grouped(lines(m.files@[i].headers@))
                }
        }),
        st.resp@.bodiless == same_name(r.method@, "HEAD"@),
{
    reveal_strlit("HTTP/1.0");
    reveal_strlit("HTTP/1.1");
    reveal_strlit("HTTP/2.0");
    reveal_strlit("HTTP/3.0");
    assert("HTTP/1.0"@[5] != "HTTP/2.0"@[5]);
    assert("HTTP/1.0"@[5] != "HTTP/3.0"@[5]);
    assert("HTTP/1.1"@[5] != "HTTP/2.0"@[5]);
    assert("HTTP/1.1"@[5] != "HTTP/3.0"@[5]);
    assert("HTTP/2.0"@[5] != "HTTP/3.0"@[5]);
    match r.body {
        Body::Raw { data, pos } => {
            assert(data@.skip(0) =~= data@);
        },
        Body::Multipart(m) => {
            if let BodyObject::Multipart { fields, files } = o.body {
                assert forall|i: int| 0 <= i < fields@.len() implies (#[trigger] fields@[i]).name@
                    == m.fields@[i].name@ && fields@[i].value@ == m.fields@[i].value@
                    && fields@[i].headers@ == grouped(lines(m.fields@[i].headers@)) by {
                    let p = st.body->Multipart_fields@[i];
                    assert(crate::request_graph::shows_field(fields@[i], p));
                    assert(crate::exchange::carries_field(p, m.fields@[i]));
                }
                assert forall|i: int| 0 <= i < files@.len() implies {
                    &&& (#[trigger] files@[i]).name@ == m.files@[i].name@
                    &&& files@[i].client_filename@ == m.files@[i].client_filename@
                    &&& opt_bytes(files@[i].client_media_type) == opt_bytes(
                        m.files@[i].client_media_type,
                    )
                    &&& files@[i].tmp_path@ == m.files@[i].file.path@
                    &&& m.files@[i].size <= i64::MAX ==> files@[i].size == m.files@[i].size
                    &&& files@[i].headers@ == grouped(lines(m.files@[i].headers@))
                } by {
                    let p = st.body->Multipart_files@[i];
                    assert(crate::request_graph::shows_file(files@[i], p));
                    assert(crate::exchange::carries_file(p, m.files@[i]));
                }
            }
        },
        _ => {},
    }
}

/// One more field line of a request as a script of the dispatcher sees it: a
/// new name opens a group at the end, a known one adds its value to its group,
/// and a name that is empty or holds a NUL byte is left out.
pub proof fn one_more_line_joins_its_group(h: Seq<Line>, l: Line)
    ensures
        ({
            let before = grouped(h);
            let after = grouped(h.push(l));
            let name = encode_utf8(l.0);
            let fit = name.len() > 0 && forall|i: int| 0 <= i < name.len() ==> #[trigger] name[i]
                != 0;
            &&& !fit ==> after == before
            &&& fit && (forall|i: int| 0 <= i < before.len() ==> (#[trigger] before[i]).0 != name)
                ==> after == before.push((name, seq![l.1]))
            &&& forall|i: int|
                0 <= i < before.len() && (#[trigger] before[i]).0 == name ==> after
                    == before.update(i, (name, before[i].1.push(l.1)))
        }),
        grouped(Seq::empty()) == Seq::<Group>::empty(),
{
    let g = byte_lines(h);
    let b = (encode_utf8(l.0), l.1);
    let name = b.0;
    let before = grouped(h);
    assert(byte_lines(h.push(l)) =~= g.push(b));
    assert(byte_lines(Seq::empty()) =~= Seq::empty());
    assert(grouped(Seq::empty()) =~= Seq::<Group>::empty());
    keys_are_the_names(g);
    if !usable(name) {
        lemma_group_skip(g, b);
    } else if forall|i: int| 0 <= i < before.len() ==> (#[trigger] before[i]).0 != name {
        if named(g, name) {
            assert(keys(g).contains(name));
            let i = choose|i: int| 0 <= i < keys(g).len() && keys(g)[i] == name;
            assert(before[i].0 == name);
        }
        lemma_group_new(g, b);
    }
    assert forall|i: int| 0 <= i < before.len() && (#[trigger] before[i]).0 == name implies grouped(
        h.push(l),
    ) == before.update(i, (name, before[i].1.push(l.1))) by {
        assert(keys(g)[i] == name);
        assert(keys(g).contains(name));
        lemma_group_known(g, b, i);
    }
}

/// One more field line of a request as `$_SERVER` sees it: a new name is added
/// with its value; a known one is joined to its value, cookies on a semicolon
/// and a space and the others on a comma and a space, but the fields that hold
/// one value keep the first.
pub proof fn one_more_line_joins_its_field(h: Seq<Line>, l: Line, i: int)
    ensures
        ({
            let before = folded(h);
            let after = folded(h.push(l));
            let single = same_name(l.0, "authorization"@) || same_name(l.0, "proxy-authorization"@)
                || same_name(l.0, "content-type"@) || same_name(l.0, "content-length"@)
                || same_name(l.0, "referer"@) || same_name(l.0, "from"@);
            let known = 0 <= i < before.len() && same_name(before[i].0, l.0);
            &&& (forall|j: int| 0 <= j < before.len() ==> !same_name((#[trigger] before[j]).0, l.0))
                ==> after == before.push(l)
            &&& known && single ==> after == before
            &&& known && !single && same_name(l.0, "cookie"@) ==> after == before.update(
                i,
                (before[i].0, before[i].1 + seq![0x3bu8, 0x20u8] + l.1),
            )
            &&& known && !single && !same_name(l.0, "cookie"@) ==> after == before.update(
                i,
                (before[i].0, before[i].1 + seq![0x2cu8, 0x20u8] + l.1),
            )
        }),
        folded(Seq::empty()) == Seq::<Line>::empty(),
{
    let before = folded(h);
    assert(folded(Seq::empty()) =~= Seq::<Line>::empty());
    each_name_once(h);
    if 0 <= i < before.len() && same_name(before[i].0, l.0) {
        lemma_fold_known(h, l, i);
    }
    if forall|j: int| 0 <= j < before.len() ==> !same_name((#[trigger] before[j]).0, l.0) {
        if occurs(l.0, h) {
            let j = choose|j: int|
                0 <= j < first_seen(h).len() && same_name(#[trigger] first_seen(h)[j], l.0);
            assert(before[j].0 == first_seen(h)[j]);
        }
        lemma_fold_new(h, l);
    }
}

/// A content type is multipart when it starts with `multipart/`, in whatever
/// case.
pub proof fn a_multipart_type_starts_so(v: Seq<u8>)
    ensures
        multipart_value(v) <==> v.len() >= 10 && same_name(ascii_text(v.take(10)), "multipart/"@),
{
    reveal_strlit("multipart/");
    if v.len() >= 10 {
        let t = v.take(10);
        let low = t.map_values(|b: u8| lower_byte(b));
        let want = seq![0x6du8, 0x75, 0x6c, 0x74, 0x69, 0x70, 0x61, 0x72, 0x74, 0x2f];
        let a = lower(ascii_text(t));
        let b = lower("multipart/"@);
        assert forall|i: int| 0 <= i < 10 implies a[i] == low[i] as char && b[i]
            == want[i] as char by {
            assert(a[i] == lower_char(t[i] as char));
            assert(b[i] == lower_char("multipart/"@[i]));
        }
        if low == want {
            assert(a =~= b);
        }
        if a == b {
            assert forall|i: int| 0 <= i < 10 implies low[i] == want[i] by {
                assert(a[i] == b[i]);
                assert((low[i] as char) as u32 == low[i] as u32);
                assert((want[i] as char) as u32 == want[i] as u32);
            }
            assert(low =~= want);
        }
    }
}

/// How a body travels: raw but for a dispatcher's, and raw where it is empty. A
/// dispatcher parses one whose only content type is multipart, and refuses one
/// with two types where either is.
pub proof fn a_body_is_parsed_by_its_one_type(
    h: Seq<Line>,
    flags: Seq<bool>,
    dispatcher: bool,
    empty: bool,
    i: int,
    j: int,
)
    requires
        flags.len() == h.len(),
    ensures
        ({
            let plan = body_plan(h, flags, dispatcher, empty);
            let only = 0 <= i < h.len() && same_name(h[i].0, "content-type"@) && forall|k: int|
                0 <= k < h.len() && k != i ==> !same_name((#[trigger] h[k]).0, "content-type"@);
            let two = 0 <= i < j < h.len() && same_name(h[i].0, "content-type"@) && same_name(
                h[j].0,
                "content-type"@,
            );
            &&& !dispatcher || empty ==> plan == BodyPlan::Raw
            &&& dispatcher && !empty && only ==> plan == if flags[i] {
                BodyPlan::Parse
            } else {
                BodyPlan::Raw
            }
            &&& dispatcher && !empty && two && (flags[i] || flags[j]) ==> plan == BodyPlan::Reject
        }),
{
    if 0 <= i < h.len() && same_name(h[i].0, "content-type"@) && forall|k: int|
        0 <= k < h.len() && k != i ==> !same_name((#[trigger] h[k]).0, "content-type"@) {
        lemma_one_type(h, flags, i);
    }
    if 0 <= i < j < h.len() && same_name(h[i].0, "content-type"@) && same_name(
        h[j].0,
        "content-type"@,
    ) {
        lemma_two_types(h, i, j);
        assert(type_line(h[i]) && type_line(h[j]));
    }
}

proof fn lemma_two_types(h: Seq<Line>, i: int, j: int)
    requires
        0 <= i < j < h.len(),
        type_line(h[i]),
        type_line(h[j]),
    ensures
        type_lines(h) >= 2,
    decreases h.len(),
{
    if j < h.len() - 1 {
        lemma_two_types(h.drop_last(), i, j);
    } else {
        lemma_some_type(h.drop_last(), i);
    }
}

proof fn lemma_some_type(h: Seq<Line>, i: int)
    requires
        0 <= i < h.len(),
        type_line(h[i]),
    ensures
        type_lines(h) >= 1,
    decreases h.len(),
{
    if i < h.len() - 1 {
        lemma_some_type(h.drop_last(), i);
    }
}

proof fn lemma_no_type(h: Seq<Line>)
    requires
        forall|k: int| 0 <= k < h.len() ==> !type_line(#[trigger] h[k]),
    ensures
        type_lines(h) == 0,
    decreases h.len(),
{
    if h.len() > 0 {
        assert(!type_line(h[h.len() - 1]));
        lemma_no_type(h.drop_last());
    }
}

proof fn lemma_one_type(h: Seq<Line>, flags: Seq<bool>, i: int)
    requires
        flags.len() == h.len(),
        0 <= i < h.len(),
        type_line(h[i]),
        forall|k: int|
            0 <= k < h.len() && k != i ==> !same_name((#[trigger] h[k]).0, "content-type"@),
    ensures
        type_lines(h) == 1,
        first_multipart(h, flags) == flags[i],
    decreases h.len(),
{
    lemma_type_count(h, i);
    if i > 0 {
        assert(!type_line(h[0]));
        let t = h.drop_first();
        assert forall|k: int| 0 <= k < t.len() && k != i - 1 implies !same_name(
            (#[trigger] t[k]).0,
            "content-type"@,
        ) by {
            assert(t[k] == h[k + 1]);
        }
        lemma_one_type(t, flags.drop_first(), i - 1);
    }
}

proof fn lemma_type_count(h: Seq<Line>, i: int)
    requires
        0 <= i < h.len(),
        type_line(h[i]),
        forall|k: int|
            0 <= k < h.len() && k != i ==> !same_name((#[trigger] h[k]).0, "content-type"@),
    ensures
        type_lines(h) == 1,
    decreases h.len(),
{
    let t = h.drop_last();
    if i < h.len() - 1 {
        assert(!type_line(h[h.len() - 1]));
        assert forall|k: int| 0 <= k < t.len() && k != i implies !same_name(
            (#[trigger] t[k]).0,
            "content-type"@,
        ) by {
            assert(t[k] == h[k]);
        }
        lemma_type_count(t, i);
    } else {
        assert forall|k: int| 0 <= k < t.len() implies !type_line(#[trigger] t[k]) by {
            assert(t[k] == h[k]);
        }
        lemma_no_type(t);
    }
}

/// What a multipart body that was not taken in is answered: the client's fault
/// with its own status, the host's as a host fault.
pub proof fn a_rejected_body_keeps_its_status(status: u16, reason: String)
    ensures
        parse_fault(ParseError::Rejected { status, reason }) == ExecFault::Rejected(status),
        parse_fault(ParseError::Io) == ExecFault::Host,
{
}

/// Every uploaded file of a request is spooled for its unit, in order; a body
/// without uploads has none.
pub proof fn every_upload_is_spooled(b: Body)
    ensures
        b matches Body::Multipart(m) ==> body_spools(b).len() == m.files@.len() && forall|i: int|
            0 <= i < m.files@.len() ==> #[trigger] body_spools(b)[i] == m.files@[i].file.path@,
        !(b is Multipart) ==> body_spools(b).len() == 0,
{
}

} // verus!
