use rapira::front::{
    append_body, authority, begin_request, build_request, collect_headers, field_name_filter,
    intake, is_safe_field_name, remote_for, server_for, Arrival, FrontConfig, HostFault,
    HttpVersion, Intake, Refusal, RequestFields, UnsafeFieldNames,
};
use rapira::reply::{
    await_head, exec_fault_status, suppress_error_log, BodyFrame, ExecFault, FilePump, HeadStep,
    ReplyEvent, Serve, ServeAction, ServeEvent, ServeStage, WireFault,
};
use rapira::types::Addr;
use rapira::wire::{
    build_interim_header, build_response_header, connection_named_headers, refusal_head,
    skip_response_header, WireHead,
};

fn hdrs(pairs: &[(&str, &str)]) -> Vec<(String, Vec<u8>)> {
    pairs.iter().map(|(k, v)| ((*k).to_owned(), v.as_bytes().to_vec())).collect()
}

fn get<'a>(head: &'a WireHead, name: &str) -> Option<&'a [u8]> {
    head.fields.iter().find(|(n, _)| n.eq_ignore_ascii_case(name)).map(|(_, v)| v.as_slice())
}

/// The Connection-named removals must run before our own Content-Length goes
/// in, or a script could strip the framing out from under the body.
#[test]
fn connection_value_cannot_strip_framing() {
    let head = build_response_header(
        200,
        hdrs(&[("Connection", "content-length, x-drop"), ("X-Drop", "1"), ("X-Keep", "2")]),
        Some(7),
        false,
        false,
    )
    .unwrap();
    assert_eq!(get(&head, "content-length").unwrap(), b"7");
    assert!(get(&head, "x-drop").is_none());
    assert_eq!(get(&head, "x-keep").unwrap(), b"2");
    assert!(get(&head, "connection").is_none());
}

#[test]
fn bodyless_statuses_get_no_content_length() {
    for status in [204u16, 304] {
        let head =
            build_response_header(status, hdrs(&[("X-A", "1")]), Some(0), false, true).unwrap();
        assert!(get(&head, "content-length").is_none(), "{status}");
        assert!(get(&head, "transfer-encoding").is_none(), "{status}");
    }
}

/// A space is not a tchar, so no front can put this name on the wire; dropping
/// the field must not cost the rest of the response.
#[test]
fn unrepresentable_header_is_dropped_not_fatal() {
    let head = build_response_header(
        200,
        hdrs(&[("Content Type", "text/html"), ("X-Keep", "2")]),
        Some(3),
        false,
        false,
    )
    .unwrap();
    assert_eq!(get(&head, "x-keep").unwrap(), b"2");
    assert_eq!(get(&head, "content-length").unwrap(), b"3");
    assert!(get(&head, "Content Type").is_none());
    let head =
        build_response_header(200, hdrs(&[("X-A", "a\r\nb"), ("X-B", "ok")]), None, false, false)
            .unwrap();
    assert!(get(&head, "x-a").is_none());
    assert_eq!(get(&head, "x-b").unwrap(), b"ok");
}

#[test]
fn php_framing_headers_never_reach_the_wire() {
    let head = build_response_header(
        200,
        hdrs(&[("Content-Length", "999"), ("Transfer-Encoding", "chunked")]),
        Some(4),
        false,
        false,
    )
    .unwrap();
    assert_eq!(get(&head, "content-length").unwrap(), b"4");
    assert!(get(&head, "transfer-encoding").is_none());
}

/// The front is the sole author of chunked framing and a Connection value
/// cannot strip it.
#[test]
fn chunked_is_authored_here_and_protected() {
    let head = build_response_header(
        200,
        hdrs(&[("Connection", "transfer-encoding"), ("X-Keep", "1")]),
        None,
        true,
        false,
    )
    .unwrap();
    assert_eq!(get(&head, "transfer-encoding").unwrap(), b"chunked");
    assert!(get(&head, "content-length").is_none());
}

/// An interim head never carries framing fields.
#[test]
fn interim_head_carries_no_framing() {
    let head = build_interim_header(
        103,
        hdrs(&[("Link", "</a.css>; rel=preload"), ("Content-Length", "5")]),
    )
    .unwrap();
    assert!(get(&head, "link").is_some());
    assert!(get(&head, "content-length").is_none());
}

#[test]
fn a_status_outside_http_builds_no_head() {
    assert_eq!(build_interim_header(99, Vec::new()).err().unwrap().status, 99);
    assert_eq!(
        build_response_header(1000, Vec::new(), None, false, false).err().unwrap().status,
        1000
    );
    let head = refusal_head(413).unwrap();
    assert_eq!(head.status, 413);
    assert_eq!(get(&head, "content-length").unwrap(), b"0");
}

#[test]
fn connection_tokens_are_split_trimmed_and_lowercased() {
    let mut out = Vec::new();
    connection_named_headers(b"  Keep-Alive , ,X-Foo\t", &mut out);
    assert_eq!(out, vec!["keep-alive".to_owned(), "x-foo".to_owned()]);
}

/// A list value may be split at its commas over several lines, and bytes that
/// are no text bring no separator in.
#[test]
fn a_connection_value_lists_the_same_when_split() {
    let mut whole = vec!["first".to_owned()];
    connection_named_headers(b"A, b ,\tC\xff,", &mut whole);
    let mut parts = vec!["first".to_owned()];
    for part in [&b"A"[..], b" b ", b"\tC\xff", b""] {
        connection_named_headers(part, &mut parts);
    }
    assert_eq!(whole, parts);
    assert_eq!(whole, ["first", "a", "b", "c\u{fffd}"]);
}

fn request_with(fields: &[(&str, &str)]) -> RequestFields {
    let mut header = RequestFields::build(true);
    for (name, value) in fields {
        header.append_header(name.to_string(), value.as_bytes().to_vec());
    }
    header
}

fn value_of<'a>(headers: &'a [(String, Vec<u8>)], name: &str) -> Option<&'a [u8]> {
    headers.iter().find(|(n, _)| n.eq_ignore_ascii_case(name)).map(|(_, v)| v.as_slice())
}

/// One entry per field line, wire order per name, case as sent.
#[test]
fn headers_arrive_per_line_with_case() {
    let headers = collect_headers(&request_with(&[
        ("X-Probe", "one"),
        ("Accept", "text/*"),
        ("x-probe", "two"),
    ]));
    let probes: Vec<_> =
        headers.iter().filter(|(n, _)| n.eq_ignore_ascii_case("x-probe")).collect();
    assert_eq!(probes.len(), 2);
    assert_eq!(probes[0].0, "X-Probe");
    assert_eq!(probes[0].1, b"one");
    assert_eq!(probes[1].0, "x-probe");
    assert_eq!(probes[1].1, b"two");
    assert_eq!(value_of(&headers, "accept"), Some(&b"text/*"[..]));
}

/// Without the sender's spelling every line still comes through, in lower case.
#[test]
fn no_case_requests_still_yield_headers() {
    let mut header = RequestFields::build(false);
    header.append_header("X-Foo".to_string(), b"1".to_vec());
    header.append_header("X-Foo".to_string(), b"2".to_vec());
    let headers = collect_headers(&header);
    let foos: Vec<_> = headers.iter().filter(|(n, _)| n == "x-foo").collect();
    assert_eq!(foos.len(), 2);
}

/// RFC 9112 section 3.2: repeated, missing or empty Host on 1.1 is a 400; a bare
/// 1.0 request named no authority.
#[test]
fn authority_follows_the_host_rules() {
    let one = |v: &str| vec![("Host".to_owned(), v.as_bytes().to_vec())];
    assert_eq!(
        authority(&one("a.example"), true).unwrap().as_deref(),
        Some(&b"a.example"[..])
    );
    assert_eq!(authority(&[], true), Err(HostFault::Missing));
    assert_eq!(authority(&one(""), true), Err(HostFault::Empty));
    let two = vec![("Host".to_owned(), b"a".to_vec()), ("host".to_owned(), b"b".to_vec())];
    assert_eq!(authority(&two, false), Err(HostFault::Repeated));
    assert_eq!(authority(&[], false).unwrap(), None);
    assert_eq!(authority(&one(""), false).unwrap(), None);
}

/// Field names surviving `policy`, in lower case.
fn surviving(policy: UnsafeFieldNames, fields: &[(&str, &str)]) -> Result<Vec<String>, u16> {
    match field_name_filter(policy, true, hdrs(fields)) {
        Ok(h) => Ok(h.iter().map(|(n, _)| n.to_ascii_lowercase()).collect()),
        Err(e) => Err(e.status()),
    }
}

/// Drop protects the variable mapping; a dispatcher pool has none, so "names as
/// received" wins there.
#[test]
fn drop_is_inert_without_superglobals() {
    let h =
        field_name_filter(UnsafeFieldNames::Drop, false, hdrs(&[("X_Forwarded_For", "1.2.3.4")]));
    let Ok(h) = h else { panic!("nothing is refused") };
    assert_eq!(value_of(&h, "x_forwarded_for"), Some(&b"1.2.3.4"[..]));
}

#[test]
fn only_alphanumerics_and_dash_are_safe_field_names() {
    assert!(is_safe_field_name("x-forwarded-for"));
    assert!(is_safe_field_name("Sec-Ch-Ua-Mobile"));
    assert!(!is_safe_field_name("x_forwarded_for"));
    assert!(!is_safe_field_name("x.forwarded.for"));
    assert!(!is_safe_field_name("x~foo"));
    assert!(!is_safe_field_name("x$foo"));
}

#[test]
fn drop_removes_only_the_unsafe_names() {
    let names = surviving(
        UnsafeFieldNames::Drop,
        &[
            ("X-Forwarded-For", "203.0.113.7"),
            ("X_Forwarded_For", "1.2.3.4"),
            ("X.Forwarded.For", "5.6.7.8"),
        ],
    )
    .unwrap();
    assert_eq!(names, ["x-forwarded-for"]);
}

#[test]
fn reject_answers_400_only_when_a_name_is_unsafe() {
    assert_eq!(surviving(UnsafeFieldNames::Reject, &[("X_Forwarded_For", "1.2.3.4")]), Err(400));
    let names = surviving(UnsafeFieldNames::Reject, &[("X-Forwarded-For", "1.2.3.4")]).unwrap();
    assert_eq!(names, ["x-forwarded-for"]);
    let e = field_name_filter(
        UnsafeFieldNames::Reject,
        false,
        hdrs(&[("A_b", "1"), ("a_B", "2"), ("c.d", "3")]),
    );
    let Err(e) = e else { panic!("two distinct names are unsafe") };
    assert_eq!((e.count, e.example.as_str()), (2, "a_b"));
}

#[test]
fn hop_by_hop_names_match_case_insensitively() {
    assert!(skip_response_header("Transfer-Encoding"));
    assert!(skip_response_header("PROXY-CONNECTION"));
    assert!(!skip_response_header("content-type"));
}

fn loopback(port: u16) -> Addr {
    Addr::Inet { ip: "127.0.0.1".to_string(), v6: false, scope_id: 0, port }
}

fn arrival(fields: RequestFields, version: HttpVersion) -> Arrival {
    Arrival {
        method: "GET".to_string(),
        uri: "/a/b?x=1".to_string(),
        target: None,
        version,
        https: false,
        fields,
        peer: Some(loopback(40000)),
        socket: Some(loopback(8000)),
        listen: loopback(8000),
        received_at: 1.5f64.to_bits(),
    }
}

/// One entry per field line, values in per-name wire order, names lowercase.
#[test]
fn headers_arrive_per_line_in_per_name_order() {
    let mut fields = RequestFields::build(false);
    fields.append_header("Host".to_string(), b"e2e".to_vec());
    fields.append_header("X-Probe".to_string(), b"one".to_vec());
    fields.append_header("Accept".to_string(), b"text/*".to_vec());
    fields.append_header("x-probe".to_string(), b"two".to_vec());
    let cfg = FrontConfig::default();
    let Ok(mut open) = begin_request(arrival(fields, HttpVersion::Http11), cfg.max_body_size)
    else {
        panic!("a sound request");
    };
    assert!(open.take_in(b"payload", cfg.max_body_size));
    let built = build_request(open, &cfg.server_name, cfg.server_port);
    let probes: Vec<_> = built
        .headers
        .iter()
        .filter(|(n, _)| n == "x-probe")
        .map(|(_, v)| v.as_slice())
        .collect();
    assert_eq!(probes, [b"one".as_slice(), b"two".as_slice()]);
    assert_eq!(built.uri, "/a/b?x=1");
    assert_eq!(built.protocol, "HTTP/1.1");
    assert_eq!(built.authority.as_deref(), Some(&b"e2e"[..]));
    assert_eq!(built.received_at.map(f64::from_bits), Some(1.5));
    assert_eq!((built.server_name.as_str(), built.server_port), ("localhost", 8000));
    assert_eq!(built.body, b"payload");
}

#[test]
fn an_arrival_is_refused_for_its_host_its_length_or_its_peer() {
    let fault = |fields: &[(&str, &str)], version, peer: bool| {
        let mut a = arrival(request_with(fields), version);
        if !peer {
            a.peer = None;
        }
        match begin_request(a, 10) {
            Ok(_) => None,
            Err(r) => Some((r, r.status())),
        }
    };
    let v11 = HttpVersion::Http11;
    assert_eq!(fault(&[], v11, true), Some((Refusal::Host(HostFault::Missing), 400)));
    assert_eq!(
        fault(&[("host", "a"), ("content-length", "11")], v11, false),
        Some((Refusal::TooLarge, 413))
    );
    assert_eq!(
        fault(&[("host", "a"), ("expect", "100-continue")], v11, false),
        Some((Refusal::NoPeer { proceed: true }, 500))
    );
    assert_eq!(fault(&[], HttpVersion::Http10, true), None);

    let mut a = arrival(request_with(&[("host", "a")]), v11);
    a.peer = None;
    a.socket = None;
    a.listen = Addr::Unix(Some(b"/run/s".to_vec()));
    let Ok(open) = begin_request(a, 10) else { panic!("a unix peer may be unnamed") };
    assert!(matches!(open.start.remote, Addr::Unix(None)));
    assert!(matches!(open.start.server, Addr::Unix(Some(_))));
}

#[test]
fn a_stated_body_above_the_limit_is_refused_before_it_is_read() {
    let big = hdrs(&[("content-length", "11")]);
    assert_eq!(intake(&big, HttpVersion::Http11, 10), Intake::TooLarge);
    assert_eq!(
        intake(&big, HttpVersion::Http11, 11),
        Intake::Read { proceed: false, reserve: 11 }
    );
    let expect = hdrs(&[("Expect", "100-Continue"), ("content-length", "nonsense")]);
    assert_eq!(
        intake(&expect, HttpVersion::Http11, 1),
        Intake::Read { proceed: true, reserve: 0 }
    );
    assert_eq!(
        intake(&expect, HttpVersion::Http10, 1),
        Intake::Read { proceed: false, reserve: 0 }
    );
}

#[test]
fn a_body_grows_up_to_the_limit() {
    let mut body = Vec::new();
    assert!(append_body(&mut body, b"abc", 5));
    assert!(!append_body(&mut body, b"def", 5));
    assert!(append_body(&mut body, b"de", 5));
    assert_eq!(body, b"abcde");
}

#[test]
fn a_network_peer_must_have_an_address() {
    assert!(remote_for(None, false).is_none());
    assert!(matches!(remote_for(None, true), Some(Addr::Unix(None))));
    assert!(matches!(remote_for(Some(loopback(1)), false), Some(Addr::Inet { port: 1, .. })));
    assert!(matches!(server_for(None, loopback(2)), Addr::Inet { port: 2, .. }));
    assert!(matches!(server_for(Some(loopback(3)), loopback(2)), Addr::Inet { port: 3, .. }));
}

fn refused(a: ServeAction) -> u16 {
    let ServeAction::Refuse(status) = a else { panic!("the request is refused") };
    status
}

fn read(s: &mut Serve, f: BodyFrame) -> ServeAction {
    let ev: ServeEvent<u32> = ServeEvent::Body(f);
    s.step(ev)
}

#[test]
fn request_body_frames_are_judged_one_by_one() {
    assert_eq!(refused(read(&mut Serve::new(10, false), BodyFrame::Stalled)), 408);
    assert_eq!(refused(read(&mut Serve::new(10, false), BodyFrame::Failed)), 400);
    let mut s = Serve::new(10, false);
    assert!(matches!(read(&mut s, BodyFrame::Data(b"123456".to_vec())), ServeAction::ReadBody));
    assert!(matches!(read(&mut s, BodyFrame::Other), ServeAction::ReadBody));
    assert_eq!(refused(read(&mut s, BodyFrame::Data(b"78901".to_vec()))), 413);
    assert_eq!(s.stage, ServeStage::Answered);

    let mut s = Serve::new(10, false);
    read(&mut s, BodyFrame::Data(b"123".to_vec()));
    read(&mut s, BodyFrame::Data(b"456".to_vec()));
    let ServeAction::Execute(body) = read(&mut s, BodyFrame::End) else {
        panic!("the body is whole");
    };
    assert_eq!(body, b"123456");
    let executed: ServeEvent<u32> = ServeEvent::Executed(None);
    assert!(matches!(s.step(executed), ServeAction::ReadReply));
    assert!(matches!(
        s.step(ServeEvent::Reply(Some(head_event(200, false)))),
        ServeAction::Respond { status: 200, declared_cl: Some(3), no_body: false, .. }
    ));
}

#[test]
fn a_request_that_was_not_executed_is_answered() {
    let mut s = Serve::new(10, false);
    read(&mut s, BodyFrame::End);
    let shed: ServeEvent<u32> = ServeEvent::Executed(Some(ExecFault::Rejected(503)));
    assert_eq!(refused(s.step(shed)), 503);
}

#[test]
fn a_reply_without_a_head_is_a_bad_gateway() {
    let none: Option<ReplyEvent<u32>> = None;
    assert!(matches!(await_head(none, false), HeadStep::Refuse(502)));
    let end: ReplyEvent<u32> = ReplyEvent::End { trailers: Vec::new(), truncated: false };
    assert!(matches!(await_head(Some(end), false), HeadStep::Refuse(502)));
    let interim: ReplyEvent<u32> = ReplyEvent::Interim { status: 103, headers: Vec::new() };
    assert!(matches!(await_head(Some(interim), false), HeadStep::Wait));
}

fn head_event(status: u16, bodiless: bool) -> ReplyEvent<u32> {
    ReplyEvent::Head {
        status,
        headers: Vec::new(),
        content_length: Some(3),
        bodiless,
        body_coded: false,
    }
}

#[test]
fn an_impossible_final_status_is_served_as_502() {
    for (status, want) in [(101, 502), (199, 502), (200, 200), (999, 999), (1000, 502)] {
        let HeadStep::Respond { status: got, .. } = await_head(Some(head_event(status, false)), false)
        else {
            panic!("a head answers");
        };
        assert_eq!(got, want, "{status}");
    }
}

#[test]
fn a_bodiless_reply_declares_no_length() {
    for (ev, head_request) in
        [(head_event(200, true), false), (head_event(204, false), false), (head_event(200, false), true)]
    {
        let HeadStep::Respond { declared_cl, no_body, .. } = await_head(Some(ev), head_request) else {
            panic!("a head answers");
        };
        assert!(no_body);
        assert_eq!(declared_cl, None);
    }
}

#[test]
fn exec_faults_have_their_statuses() {
    assert_eq!(exec_fault_status(ExecFault::Rejected(413)), 413);
    assert_eq!(exec_fault_status(ExecFault::Rejected(7)), 500);
    assert_eq!(exec_fault_status(ExecFault::Host), 500);
    assert_eq!(exec_fault_status(ExecFault::Other), 502);
}

#[test]
fn a_file_is_pumped_in_pieces_within_its_slice() {
    let mut pump = FilePump { offset: 10, len: 70_000, done: 0 };
    assert_eq!(pump.next(), Some((10, 65_536)));
    assert!(pump.read(65_536));
    assert_eq!(pump.next(), Some((65_546, 4_464)));
    assert!(pump.read(4_000));
    assert_eq!(pump.next(), Some((69_546, 464)));
    assert!(!pump.read(0), "the file shrank");
    assert_eq!(pump.done, 69_536);
}

#[test]
fn only_the_servers_own_faults_are_logged() {
    assert!(suppress_error_log(WireFault::ConnectionClosed));
    assert!(suppress_error_log(WireFault::WriteFailed));
    assert!(suppress_error_log(WireFault::WriteTimedOut));
    assert!(!suppress_error_log(WireFault::Other));
}
