use rapira::front::FrontRequest;
use rapira::reply::{collect, Collected, CollectFault, ExecFault, ReplyEvent};
use rapira::runtime::{
    accept_step, drain_end, drain_waits, drive_outcome, parse_err, plan_body, script_vars,
    multipart_lines, plan_request, request_of, to_request, AcceptStep, BodyPlan, DrainEnd,
    DriveFault, Driven, ParseError, Registry,
};
use rapira::types::{Addr, Body, MultipartBody};

fn head() -> ReplyEvent<u32> {
    ReplyEvent::Head {
        status: 200,
        headers: vec![("x-a".to_string(), b"1".to_vec())],
        content_length: None,
        bodiless: false,
        body_coded: false,
    }
}

fn end(truncated: bool) -> ReplyEvent<u32> {
    ReplyEvent::End { trailers: Vec::new(), truncated }
}

fn fault(r: Result<Collected, CollectFault>) -> CollectFault {
    match r {
        Ok(_) => panic!("the reply is not whole"),
        Err(e) => e,
    }
}

/// The four stream outcomes map to the three documented errors and Ok.
#[test]
fn collect_maps_stream_outcomes() {
    assert_eq!(fault(collect::<u32>(Vec::new())), CollectFault::Died);
    assert_eq!(fault(collect(vec![head()])), CollectFault::Truncated);
    assert_eq!(fault(collect(vec![head(), end(true)])), CollectFault::Truncated);
    assert_eq!(fault(collect(vec![end(false)])), CollectFault::NoHead);
}

/// Chunks concatenate in order; interim heads are dropped.
#[test]
fn collect_concatenates_the_stream() {
    let r = collect(vec![
        ReplyEvent::Interim { status: 103, headers: Vec::new() },
        head(),
        ReplyEvent::Chunk(bytes::Bytes::from_static(b"one,")),
        ReplyEvent::Chunk(bytes::Bytes::from_static(b"two")),
        end(false),
    ]);
    let Ok(r) = r else { panic!("a whole reply") };
    assert_eq!(r.status, 200);
    assert_eq!(r.headers, vec![("x-a".to_string(), b"1".to_vec())]);
    assert_eq!(r.body, b"one,two");
}

/// A spool failure is the host's fault and a refused body is the client's: both
/// must stay apart.
#[test]
fn parse_err_keeps_the_typed_causes() {
    assert_eq!(parse_err(&ParseError::Io), ExecFault::Host);
    let rejected = ParseError::Rejected { status: 413, reason: "too big".to_string() };
    assert_eq!(parse_err(&rejected), ExecFault::Rejected(413));
}

fn front_request(headers: &[(&str, &str)], body: &[u8]) -> FrontRequest {
    FrontRequest {
        method: "POST".to_string(),
        uri: "/a?b=1?c".to_string(),
        target: Some(Vec::new()),
        authority: Some(b"h".to_vec()),
        https: true,
        protocol: "HTTP/1.1".to_string(),
        remote: Addr::Unix(None),
        server: Addr::Unix(None),
        server_name: "s".to_string(),
        server_port: 9,
        tls: None,
        received_at: Some(4),
        headers: headers
            .iter()
            .map(|(k, v)| ((*k).to_owned(), v.as_bytes().to_vec()))
            .collect(),
        body: body.to_vec(),
    }
}

#[test]
fn a_front_request_becomes_a_worker_request() {
    let script = script_vars(
        b"/srv/app/index.php".to_vec(),
        Some(b"/srv/app".to_vec()),
        Some(b"index.php".to_vec()),
    );
    let f = front_request(&[("Content-Type", "a/b"), ("content-type", "c/d")], b"xyz");
    let Ok(r) = to_request(f, &script, &vec![false, false], true, None) else {
        panic!("neither type is multipart");
    };
    assert_eq!(r.query, "b=1?c");
    assert_eq!(r.content_type.as_deref(), Some(&b"a/b"[..]));
    assert_eq!(r.content_length, 3);
    assert_eq!(r.target, None, "empty means none was named");
    assert_eq!(r.authority.as_deref(), Some(&b"h"[..]));
    assert_eq!((r.script_name.as_str(), r.document_root.as_str()), ("/index.php", "/srv/app"));
    assert!(matches!(r.body, Body::Raw { data, pos: 0 } if data == b"xyz"));
    let bare = script_vars(Vec::new(), None, None);
    assert_eq!((bare.script_name.as_str(), bare.document_root.as_str()), ("/", ""));

    let f = front_request(&[("content-type", "multipart/form-data")], b"12345");
    let flags = multipart_lines(&f.headers);
    let parsed = MultipartBody { fields: Vec::new(), files: Vec::new() };
    let Ok(r) = to_request(f, &script, &flags, true, Some(Ok(parsed))) else {
        panic!("the body was parsed");
    };
    assert_eq!(r.content_length, 5, "the wire's count, whatever the body became");
    assert!(matches!(r.body, Body::Multipart(_)));
}

#[test]
fn repeated_content_types_with_multipart_are_refused() {
    let two = front_request(&[("content-type", "x"), ("a", "b"), ("Content-Type", "m")], b"z");
    assert_eq!(plan_body(&two, &vec![false, false, true], true), BodyPlan::Reject);
    assert_eq!(plan_body(&two, &vec![false, true, false], true), BodyPlan::Raw);
    assert_eq!(plan_body(&two, &vec![false, false, true], false), BodyPlan::Raw);
    let one = front_request(&[("content-type", "m")], b"z");
    assert_eq!(plan_body(&one, &vec![true], true), BodyPlan::Parse);
    let empty = front_request(&[("content-type", "m")], b"");
    assert_eq!(plan_body(&empty, &vec![true], true), BodyPlan::Raw);
}

/// A request that is refused for its body never becomes a worker's.
#[test]
fn a_refused_body_is_never_queued() {
    let script = script_vars(Vec::new(), None, None);
    let two = &[("content-type", "text/plain"), ("Content-Type", "Multipart/Mixed; boundary=x")];
    let f = front_request(two, b"z");
    let flags = multipart_lines(&f.headers);
    assert_eq!(flags, [false, true]);
    assert_eq!(
        to_request(f, &script, &flags, true, None).err(),
        Some(ExecFault::Rejected(400))
    );
    // and the same by the request's own content types
    assert_eq!(plan_request(&front_request(two, b"z"), true), BodyPlan::Reject);
    assert_eq!(
        request_of(front_request(two, b"z"), &script, true, None).err(),
        Some(ExecFault::Rejected(400))
    );
    assert!(request_of(front_request(two, b""), &script, true, None).is_ok());
    assert!(request_of(front_request(two, b"z"), &script, false, None).is_ok());
    // only a dispatcher's host parses multipart
    assert!(to_request(front_request(two, b"z"), &script, &flags, false, None).is_ok());
    let one = &[("content-type", "multipart/form-data")];
    let rejected = ParseError::Rejected { status: 413, reason: "too big".to_string() };
    assert_eq!(
        to_request(front_request(one, b"z"), &script, &vec![true], true, Some(Err(rejected))).err(),
        Some(ExecFault::Rejected(413))
    );
    assert_eq!(
        to_request(front_request(one, b"z"), &script, &vec![true], true, Some(Err(ParseError::Io)))
            .err(),
        Some(ExecFault::Host)
    );
}

#[test]
fn an_extension_registers_once() {
    let mut r = Registry::new();
    assert!(r.is_empty());
    assert!(r.register("http".to_string()));
    assert!(!r.register("http".to_string()));
    assert!(r.register("grpc".to_string()));
    assert_eq!(r.names, ["http", "grpc"]);
}

#[test]
fn driving_ends_in_one_of_four_ways() {
    assert_eq!(drive_outcome(Driven::Finished(false)), Ok(()));
    assert_eq!(drive_outcome(Driven::Stopped(false)), Ok(()));
    assert_eq!(drive_outcome(Driven::Finished(true)), Err(DriveFault::RunFailed));
    assert_eq!(drive_outcome(Driven::Stopped(true)), Err(DriveFault::ShutdownFailed));
    assert_eq!(drive_outcome(Driven::TimedOut), Err(DriveFault::ShutdownTimedOut));
}

#[test]
fn accepts_and_drains_are_judged() {
    assert_eq!(accept_step(true, true), AcceptStep::Stop);
    assert_eq!(accept_step(false, true), AcceptStep::Skip);
    assert_eq!(accept_step(false, false), AcceptStep::Pause);
    assert!(drain_waits(1, false) && !drain_waits(1, true) && !drain_waits(0, false));
    assert_eq!(drain_end(true, 3), DrainEnd::ListenerFailed);
    assert_eq!(drain_end(false, 3), DrainEnd::Stranded(3));
    assert_eq!(drain_end(false, 0), DrainEnd::Clean);
}
