use rapira::app_log::{
    flatten_throwable, level_from_case, log_record, rebuild_context, ContextKey, ContextValue,
    RebuiltValue, Throwable,
};
use rapira::context::Context;
use rapira::cycle::{cycle_reset, reclaim_current, CycleState, Desk, Unit};
use rapira::diagnostics::Level;
use rapira::exchange::{ExchangeState, Job};
use rapira::frames::Frame;
use rapira::headers::{TableEntry, TableItem, TableKey};
use rapira::quota::install;
use rapira::receive::{
    begin_pull, dispatcher_info, dispatches, end_pull, on_pulled, pull_kind, receive_args,
    receive_busy, throw_busy, throw_no_dispatcher, throw_receive, throw_timeout_arg, PullKind,
    Pulled, Received, RecvMode,
};
use rapira::request_graph::{settle_request, AddressObject, BodyObject, BuildReport};
use rapira::respond::{Progress, Verb};
use rapira::scoreboard::{SharedSlot, SLOT_ACTIVE, SLOT_IDLE};
use rapira::sendfile::fd_path;
use rapira::spool::SpooledFile;
use rapira::types::{
    Addr, Body, ClientCertView, FormField, Mode, MultipartBody, Request, TlsView, UploadedFile,
};
use rapira::verbs::{throw_verb, ArgFault, ThrowClass};
use rapira::worker_board::{sb_set, WorkerBoard};
use tokio::sync::mpsc::{channel, Receiver};

fn req(uri: &str) -> Request {
    let query = uri.split_once('?').map(|x| x.1);
    let inet = || Addr::Inet { ip: "127.0.0.1".to_string(), v6: false, scope_id: 0, port: 8080 };
    Request {
        method: "GET".to_string(),
        uri: uri.to_string(),
        target: None,
        authority: None,
        https: false,
        query: query.unwrap_or("").to_string(),
        protocol: "HTTP/1.1".to_string(),
        remote: inet(),
        server: inet(),
        server_name: "localhost".to_string(),
        server_port: 8080,
        script_name: "/index.php".to_string(),
        document_root: String::new(),
        script_filename: Vec::new(),
        headers: Vec::new(),
        server_vars: Vec::new(),
        content_type: None,
        content_length: 0,
        body: Body::Raw { data: Vec::new(), pos: 0 },
        received_at: None,
        tls: None,
    }
}

fn desk() -> Desk {
    let mut slot = SharedSlot {
        state: 0,
        pid: 0,
        handled: 0,
        errors: 0,
        recycles: 0,
        restarts: 0,
        unhealthy: 0,
        last_activity_ms: 0,
    };
    slot.bind(1, 0);
    let mut board = WorkerBoard {
        slot: None,
        draining: false,
        quota: install(0, false, false),
        due: Vec::new(),
    };
    sb_set(&mut board, slot);
    Desk { cycle: CycleState::idle(), board }
}

fn pull(d: &mut Desk, rq: Request, id: u64) -> (ExchangeState<u32>, Receiver<Frame<u32>>) {
    let (tx, rx) = channel(16);
    let job = Job { ctx: Context::new(rq, tx, false) };
    assert!(!receive_busy(&d.cycle));
    let Received::Unit(st) = on_pulled(d, Pulled::Job(job), RecvMode::Wait(-1), id) else {
        panic!("the unit must be handed out");
    };
    (st, rx)
}

fn done(p: Progress) -> Verb {
    let Progress::Done(v) = p else { panic!("the channel has room") };
    v
}

/// (status, body) of a whole stream; status 0 is no head.
fn drain(rx: &mut Receiver<Frame<u32>>) -> (u16, String) {
    let (mut status, mut body) = (0, Vec::new());
    while let Ok(f) = rx.try_recv() {
        match f {
            Frame::Head { head, .. } => status = head.status,
            Frame::Chunk(b) => body.extend_from_slice(&b),
            _ => {}
        }
    }
    (status, String::from_utf8_lossy(&body).into_owned())
}

/// Two sequential units: the worker survives between them, and closure of the
/// intake reaches the parked receive.
#[test]
fn exchange_serves_sequential_requests() {
    let mut d = desk();
    for (id, uri, body) in [(1u64, "/first", ""), (2, "/second", "two")] {
        let mut rq = req(uri);
        rq.body = Body::Raw { data: body.as_bytes().to_vec(), pos: 0 };
        let (mut st, mut rx) = pull(&mut d, rq, id);
        assert_eq!(d.cycle.unit, Unit::Handling(id));
        let o = st.build_request();
        assert_eq!(o.target, uri.as_bytes());
        let BodyObject::Text(got) = o.body else { panic!("a raw body") };
        assert_eq!(got, body.as_bytes());
        assert_eq!(done(st.resp.write_body(&mut d, b"ok", true)), Verb::Accepted);
        assert_eq!(d.cycle.unit, Unit::Sealed(id));
        assert_eq!(drain(&mut rx), (200, "ok".to_string()));
        st.resp.abandon(&mut d, id);
        assert_eq!(d.cycle.unit, Unit::Idle);
    }
    let closed: Pulled<u32> = Pulled::Closed;
    assert!(matches!(on_pulled(&mut d, closed, RecvMode::Wait(-1), 3), Received::Closed));
    assert!(d.cycle.closed_seen());
    assert!(d.cycle.served_any() && d.cycle.received_any());
    assert_eq!(d.board.slot.unwrap().handled, 2);
}

/// `tryReceive()`, `receive(0)` and `receive(50ms)` against an empty-but-open
/// channel.
#[test]
fn recv_probes_on_an_empty_channel() {
    let mut d = desk();
    let empty = || -> Pulled<u32> { Pulled::Empty };
    assert_eq!(pull_kind(RecvMode::Try), PullKind::Now);
    assert!(matches!(on_pulled(&mut d, empty(), RecvMode::Try, 1), Received::Nothing));
    assert_eq!(pull_kind(RecvMode::Wait(0)), PullKind::Now);
    assert!(matches!(on_pulled(&mut d, empty(), RecvMode::Wait(0), 1), Received::TimedOut));
    assert_eq!(pull_kind(RecvMode::Wait(50_000)), PullKind::Micros(50_000));
    let late: Pulled<u32> = Pulled::Timeout;
    assert!(matches!(on_pulled(&mut d, late, RecvMode::Wait(50_000), 1), Received::TimedOut));
    assert_eq!(pull_kind(RecvMode::Wait(-1)), PullKind::Forever);
}

/// A body write with no prior head commits an implicit 200.
#[test]
fn implicit_200_on_first_write_body() {
    let mut d = desk();
    let (mut st, mut rx) = pull(&mut d, req("/"), 1);
    done(st.resp.write_body(&mut d, b"state=false", true));
    assert_eq!(drain(&mut rx), (200, "state=false".to_string()));
}

/// A second finalizing verb after the unit sealed throws; the sealed response is
/// untouched.
#[test]
fn double_finalize_throws_already_finalized() {
    let mut d = desk();
    let (mut st, mut rx) = pull(&mut d, req("/"), 1);
    done(st.resp.write_body(&mut d, b"first", true));
    let v = done(st.resp.write_body(&mut d, b"second", true));
    assert_eq!(throw_verb(v), Some((ThrowClass::AlreadyFinalized, "the response already ended")));
    assert_eq!(drain(&mut rx), (200, "first".to_string()));
}

fn head(st: &mut ExchangeState<u32>, d: &mut Desk, status: i64) -> Verb {
    match st.resp.write_head(d, status, None) {
        Ok(p) => done(p),
        Err(_) => panic!("sound arguments"),
    }
}

/// A second head after the final head throws; the first head stands.
#[test]
fn double_head_throws_head_already_written() {
    let mut d = desk();
    let (mut st, mut rx) = pull(&mut d, req("/"), 1);
    assert_eq!(head(&mut st, &mut d, 201), Verb::Accepted);
    let v = head(&mut st, &mut d, 500);
    assert_eq!(throw_verb(v).map(|t| t.0), Some(ThrowClass::HeadAlreadyWritten));
    done(st.resp.write_body(&mut d, b"double-head", true));
    assert_eq!(drain(&mut rx), (201, "double-head".to_string()), "the first head must stand");
}

/// The verb edges: receiving while a unit is out is refused, a timeout below -1
/// is refused, and a head after the end is a head already written.
#[test]
fn verb_edges_throw_their_documented_classes() {
    let mut d = desk();
    let (mut st, _rx) = pull(&mut d, req("/"), 1);
    assert!(receive_busy(&d.cycle), "single-flight");
    assert_eq!(receive_args(-2), None);
    assert_eq!(receive_args(-1), Some(RecvMode::Wait(-1)));
    done(st.resp.write_body(&mut d, b"x", true));
    let v = head(&mut st, &mut d, 200);
    assert_eq!(throw_verb(v).map(|t| t.0), Some(ThrowClass::HeadAlreadyWritten));
}

/// Receiving while a unit is unfinalized is refused instead of deadlocking the
/// worker on itself; once it is finalized the worker may receive again.
#[test]
fn receive_while_unfinalized_throws() {
    let mut d = desk();
    let (mut st, _rx) = pull(&mut d, req("/"), 1);
    assert!(receive_busy(&d.cycle));
    done(st.resp.write_body(&mut d, b"x", true));
    assert!(!receive_busy(&d.cycle));
}

/// 101 is the carve-out in the 1xx interim rule: it commits as the final head
/// and locks out any later head.
#[test]
fn writehead_101_commits_as_final() {
    let mut d = desk();
    let (mut st, mut rx) = pull(&mut d, req("/"), 1);
    assert_eq!(head(&mut st, &mut d, 101), Verb::Accepted);
    assert_eq!(head(&mut st, &mut d, 200), Verb::HeadWritten);
    done(st.resp.write_body(&mut d, b"locked", true));
    assert_eq!(drain(&mut rx).0, 101);
}

/// Chunks concatenate, the unit stays unfinalized between them, and the first
/// chunk commits the implicit 200.
#[test]
fn chunked_body_buffers_and_locks_the_head() {
    let mut d = desk();
    let (mut st, mut rx) = pull(&mut d, req("/"), 1);
    done(st.resp.write_body(&mut d, b"one-", false));
    assert!(!st.resp.is_finalized());
    assert_eq!(head(&mut st, &mut d, 500), Verb::HeadWritten);
    done(st.resp.write_body(&mut d, b"mid=false", true));
    assert_eq!(drain(&mut rx), (200, "one-mid=false".to_string()));
}

/// No body on a HEAD response or a 204: chunks are accepted and dropped, the
/// head stands.
#[test]
fn head_and_204_drop_the_body() {
    let mut d = desk();
    let mut rq = req("/");
    rq.method = "HEAD".to_string();
    let (mut st, mut rx) = pull(&mut d, rq, 1);
    done(st.resp.write_body(&mut d, b"state=false", true));
    assert_eq!(drain(&mut rx), (200, String::new()), "HEAD keeps the head but drops the body");

    let (mut st, mut rx) = pull(&mut d, req("/"), 2);
    head(&mut st, &mut d, 204);
    done(st.resp.write_body(&mut d, b"x", true));
    assert_eq!(drain(&mut rx), (204, String::new()));
}

/// Out-of-range status codes raise before anything reaches the host.
#[test]
fn status_range_and_header_shape_value_errors() {
    let mut d = desk();
    let (mut st, mut rx) = pull(&mut d, req("/"), 1);
    for status in [99, 600] {
        assert_eq!(
            st.resp.write_head(&mut d, status, None).err(),
            Some(ArgFault::Status(status))
        );
    }
    assert!(rx.try_recv().is_err());
}

/// The request's field mapping: per-line headers (repeats stay a list, casings
/// stay distinct keys), byte-exact target, authority, the synthesized URI,
/// socket-typed addresses and a null TLS.
#[test]
fn request_fields_reach_php() {
    let mut d = desk();
    let mut rq = req("/path?x=1");
    rq.headers = [
        ("x-probe", "alpha"),
        ("X-Case", "one"),
        ("x-probe", "beta"),
        ("x-case", "two"),
        ("123", "numeric"),
        ("", "skipped"),
    ]
    .iter()
    .map(|(k, v)| (k.to_string(), v.as_bytes().to_vec()))
    .collect();
    rq.authority = Some(b"example.test".to_vec());
    rq.target = Some(b"/path%2Fa?x=1\xe9".to_vec());
    rq.body = Body::Raw { data: b"hello".to_vec(), pos: 0 };
    let (st, _rx) = pull(&mut d, rq, 1);
    let o = st.build_request();
    assert_eq!(o.method, b"GET");
    assert_eq!(o.uri, b"http://example.test/path?x=1");
    assert_eq!(o.target, b"/path%2Fa?x=1\xe9");
    assert_eq!(o.authority.as_deref(), Some(&b"example.test"[..]));
    assert_eq!(o.protocol, b"HTTP/1.1");
    assert_eq!(
        o.headers.entries,
        vec![
            (b"x-probe".to_vec(), vec![b"alpha".to_vec(), b"beta".to_vec()]),
            (b"X-Case".to_vec(), vec![b"one".to_vec()]),
            (b"x-case".to_vec(), vec![b"two".to_vec()]),
            (b"123".to_vec(), vec![b"numeric".to_vec()]),
        ]
    );
    assert!(matches!(o.body, BodyObject::Text(b) if b == b"hello"));
    assert!(
        matches!(o.remote, AddressObject::Inet { ip, port: 8080 } if ip == b"127.0.0.1")
    );
    assert!(o.tls.is_none());
}

/// Producer-stamped facts pass through untouched.
#[test]
fn plugin_stamped_fields_pass_through() {
    let mut d = desk();
    let mut rq = req("/p");
    rq.protocol = "HTTP/2.0".to_string();
    rq.received_at = Some(123.5f64.to_bits());
    let (st, _rx) = pull(&mut d, rq, 1);
    let o = st.build_request();
    assert_eq!(o.protocol, b"HTTP/2");
    assert_eq!(f64::from_bits(o.received_at), 123.5);
    assert!(o.authority.is_none());
    assert_eq!(o.uri, b"http://127.0.0.1:8080/p");
}

/// The unix address arms: an unnamed peer and a path-carrying listener.
#[test]
fn unix_address_arms_reach_php() {
    let mut d = desk();
    let mut rq = req("/");
    rq.remote = Addr::Unix(None);
    rq.server = Addr::Unix(Some(b"/run/rapira.sock".to_vec()));
    let (st, _rx) = pull(&mut d, rq, 1);
    let o = st.build_request();
    assert!(matches!(o.remote, AddressObject::Unix { path: None }));
    assert!(matches!(o.server, AddressObject::Unix { path: Some(p) } if p == b"/run/rapira.sock"));
    assert_eq!(o.uri, b"http://localhost:8080/");
}

/// The remaining URI arms: the https scheme, an asterisk-form target, IPv6.
#[test]
fn uri_synthesis_covers_https_and_asterisk_form() {
    let mut d = desk();
    let mut rq = req("/secure");
    rq.https = true;
    rq.protocol = "HTTP/3.0".to_string();
    let (mut st, _rx) = pull(&mut d, rq, 1);
    let o = st.build_request();
    assert_eq!(o.uri, b"https://127.0.0.1:8080/secure");
    assert_eq!(o.protocol, b"HTTP/3");
    done(st.resp.write_body(&mut d, b"", true));

    let mut rq = req("*");
    rq.method = "OPTIONS".to_string();
    let (mut st, _rx2) = pull(&mut d, rq, 2);
    let o = st.build_request();
    assert_eq!(o.method, b"OPTIONS");
    assert_eq!(o.uri, b"http://127.0.0.1:8080/");
    assert_eq!(o.target, b"*");
    done(st.resp.write_body(&mut d, b"", true));

    let mut rq = req("/");
    rq.server = Addr::Inet { ip: "fe80::1".to_string(), v6: true, scope_id: 2, port: 81 };
    let (st, _rx3) = pull(&mut d, rq, 3);
    assert_eq!(st.uri_abs, "http://[fe80::1%2]:81/");
}

/// The TLS plumbing: full object with a client cert, then the nullable arms.
#[test]
fn tls_view_reaches_php() {
    let mut d = desk();
    let mut rq = req("/");
    rq.tls = Some(TlsView {
        version: "TLSv1.3".to_string(),
        cipher: "TLS_AES_256_GCM_SHA384".to_string(),
        alpn: Some("h2".to_string()),
        server_name: Some("sni.example".to_string()),
        cert: Some(ClientCertView {
            serial: "0AB1".to_string(),
            organization: None,
            fingerprint: "abcd".to_string(),
        }),
    });
    let (mut st, _rx) = pull(&mut d, rq, 1);
    let t = st.build_request().tls.expect("a session");
    assert_eq!((t.version, t.cipher), (b"TLSv1.3".to_vec(), b"TLS_AES_256_GCM_SHA384".to_vec()));
    assert_eq!(t.negotiated_protocol, Some(b"h2".to_vec()));
    assert_eq!(t.requested_server_name, Some(b"sni.example".to_vec()));
    assert_eq!(t.cert_serial, Some(b"0AB1".to_vec()));
    assert_eq!(t.cert_organization, None);
    assert_eq!(t.cert_fingerprint, Some(b"abcd".to_vec()));
    done(st.resp.write_body(&mut d, b"", true));

    let mut rq = req("/");
    rq.tls = Some(TlsView {
        version: "TLSv1.2".to_string(),
        cipher: "X".to_string(),
        alpn: None,
        server_name: None,
        cert: None,
    });
    let (st, _rx2) = pull(&mut d, rq, 2);
    let t = st.build_request().tls.expect("a session");
    assert_eq!(t.negotiated_protocol, None);
    assert_eq!(t.requested_server_name, None);
    assert_eq!((t.cert_serial, t.cert_organization, t.cert_fingerprint), (None, None, None));
}

fn file(name: &[u8], filename: &[u8], path: &[u8], size: u64) -> UploadedFile {
    UploadedFile {
        name: name.to_vec(),
        client_filename: filename.to_vec(),
        client_media_type: None,
        headers: Vec::new(),
        file: SpooledFile { path: path.to_vec() },
        size,
    }
}

fn form_field(name: &[u8], value: &[u8]) -> FormField {
    FormField {
        name: name.to_vec(),
        value: value.to_vec(),
        headers: vec![("content-disposition".to_string(), b"form-data".to_vec())],
    }
}

/// Two fields and two files with distinct contents: the graph must pair each
/// part with its own headers, spool path, and size by index; the files go
/// before the end does.
#[test]
fn multipart_parts_stay_index_aligned() {
    let mut d = desk();
    let mut rq = req("/");
    rq.body = Body::Multipart(MultipartBody {
        fields: vec![form_field(b"one", b"1"), form_field(b"two", b"22")],
        files: vec![file(b"fa", b"a.bin", b"/tmp/a", 3), file(b"fb", b"b.bin", b"/tmp/b", 5)],
    });
    let (mut st, _rx) = pull(&mut d, rq, 1);
    let BodyObject::Multipart { fields, files } = st.build_request().body else {
        panic!("a multipart body");
    };
    assert_eq!((fields.len(), files.len()), (2, 2));
    assert_eq!((fields[0].name.as_slice(), fields[0].value.as_slice()), (&b"one"[..], &b"1"[..]));
    assert_eq!((fields[1].name.as_slice(), fields[1].value.as_slice()), (&b"two"[..], &b"22"[..]));
    assert_eq!(fields[1].headers.entries[0].0, b"content-disposition");
    assert_eq!((files[0].tmp_path.as_slice(), files[0].size), (&b"/tmp/a"[..], 3));
    assert_eq!((files[1].tmp_path.as_slice(), files[1].size), (&b"/tmp/b"[..], 5));
    let Progress::Unlink(gone) = st.resp.write_body(&mut d, b"", true) else {
        panic!("the spooled files go first");
    };
    assert_eq!(gone, vec![b"/tmp/a".to_vec(), b"/tmp/b".to_vec()]);
    assert_eq!(done(st.resp.resume(&mut d)), Verb::Accepted);
}

/// `getInfo()` while handling: the outstanding unit counts as active.
#[test]
fn get_info_counts_the_outstanding_unit() {
    let mut d = desk();
    begin_pull(&mut d.board, 5);
    assert_eq!(d.board.slot.unwrap().state, SLOT_IDLE);
    let depth = end_pull(&mut d.board, true, 1, 6);
    assert_eq!(d.board.slot.unwrap().state, SLOT_ACTIVE);
    let (_st, _rx) = pull(&mut d, req("/"), 1);
    assert_eq!(dispatcher_info(&d.cycle, depth), (0, 1));
    assert_eq!(end_pull(&mut d.board, false, 4, 7), 4);
}

/// A client that vanishes while its job is still queued is failed before it is
/// handed out.
#[test]
fn queued_client_gone_is_discarded_before_handout() {
    let mut d = desk();
    let (tx, rx) = channel(4);
    drop(rx);
    let mut rq = req("/");
    rq.body = Body::Multipart(MultipartBody {
        fields: Vec::new(),
        files: vec![file(b"f", b"a", b"/tmp/x", 1)],
    });
    let job: Job<u32> = Job { ctx: Context::new(rq, tx, false) };
    let Received::Failed { outgoing, unlink } =
        on_pulled(&mut d, Pulled::Job(job), RecvMode::Wait(-1), 1)
    else {
        panic!("nobody waits for it");
    };
    assert!(outgoing.is_none());
    assert_eq!(unlink, vec![b"/tmp/x".to_vec()]);
    assert_eq!(d.cycle, CycleState::idle());
    let slot = d.board.slot.unwrap();
    assert_eq!((slot.handled, slot.errors), (1, 1));
}

/// A body that could not be read fails the unit with a truncated end.
#[test]
fn an_unreadable_body_fails_its_unit() {
    let mut d = desk();
    let (tx, _rx) = channel(4);
    let mut rq = req("/");
    rq.body = Body::Unreadable;
    let job: Job<u32> = Job { ctx: Context::new(rq, tx, false) };
    let Received::Failed { outgoing, .. } =
        on_pulled(&mut d, Pulled::Job(job), RecvMode::Try, 1)
    else {
        panic!("the unit fails");
    };
    let out = outgoing.expect("its end is sent");
    assert_eq!(out.frames.len(), 1);
    assert!(matches!(out.frames[0], Frame::End { truncated: true, .. }));
}

/// Outside the mode that dispatches work nothing feeds this process units, so
/// the call must throw the specific error, catchable by its own name.
#[test]
fn get_dispatcher_outside_worker_mode_throws() {
    assert_eq!(
        throw_no_dispatcher(&Mode::Classic),
        Some((
            ThrowClass::NotInWorkerMode,
            "nothing dispatches work to this process outside dispatcher mode"
        ))
    );
    assert_eq!(
        throw_no_dispatcher(&Mode::Worker(Vec::new())).map(|t| t.0),
        Some(ThrowClass::NotInWorkerMode)
    );
    assert_eq!(throw_no_dispatcher(&Mode::Dispatcher(Vec::new())), None);
    assert!(!dispatches(&Mode::Classic));
    assert!(!dispatches(&Mode::Worker(Vec::new())));
    assert!(dispatches(&Mode::Dispatcher(Vec::new())));
}

/// What a receive throws: the end of all work and a timeout have classes of
/// their own, a unit that is still out is a plain error, and a bad timeout is a
/// value error.
#[test]
fn receive_throws_by_outcome() {
    let closed: Received<u32> = on_pulled(&mut desk(), Pulled::Closed, RecvMode::Wait(-1), 1);
    assert_eq!(
        throw_receive(&closed),
        Some((ThrowClass::Closed, "no more work will ever arrive"))
    );
    let late: Received<u32> = on_pulled(&mut desk(), Pulled::Timeout, RecvMode::Wait(5), 1);
    assert_eq!(
        throw_receive(&late),
        Some((ThrowClass::Timeout, "no work became available within the timeout"))
    );
    let empty: Received<u32> = on_pulled(&mut desk(), Pulled::Empty, RecvMode::Wait(0), 1);
    assert_eq!(throw_receive(&empty).map(|t| t.0), Some(ThrowClass::Timeout));
    let nothing: Received<u32> = on_pulled(&mut desk(), Pulled::Empty, RecvMode::Try, 1);
    assert_eq!(throw_receive(&nothing), None);
    let mut d = desk();
    assert_eq!(throw_busy(&d.cycle), None);
    d.cycle.hand_out(3);
    assert_eq!(
        throw_busy(&d.cycle),
        Some((
            ThrowClass::Error,
            "receive() while a Rapira\\Http\\Exchange is unfinalized; finalize it first"
        ))
    );
    assert_eq!(throw_timeout_arg(-1), None);
    assert_eq!(throw_timeout_arg(-2).map(|t| t.0), Some(ThrowClass::ValueError));
}

/// A leaked unit is reclaimed, and counted as failed unless it had ended.
#[test]
fn a_leaked_unit_is_reclaimed_once() {
    let mut d = desk();
    d.cycle.hand_out(8);
    assert_eq!(reclaim_current(&mut d, false), Some(8));
    assert_eq!(reclaim_current(&mut d, false), None);
    assert_eq!(d.board.slot.unwrap().errors, 1);
    d.cycle.hand_out(9);
    d.cycle.note_closed();
    assert_eq!(cycle_reset(&mut d, true), Some(9));
    assert_eq!(d.cycle, CycleState::idle());
    assert_eq!(d.board.slot.unwrap().errors, 1);
}

/// A graph is remembered only when it was written whole.
#[test]
fn a_poisoned_graph_is_not_remembered() {
    let good = BuildReport {
        class_known: true,
        parts_threw: false,
        threw_before: false,
        threw_after: false,
    };
    assert_eq!(settle_request(None, 5, good), (Some(5), Some(5)));
    assert_eq!(settle_request(Some(4), 5, good), (Some(4), Some(4)));
    for bad in [
        BuildReport { class_known: false, ..good },
        BuildReport { parts_threw: true, ..good },
        BuildReport { threw_before: true, ..good },
        BuildReport { threw_after: true, ..good },
    ] {
        assert_eq!(settle_request(None, 5, bad), (None, None));
    }
}

/// Every level case must reach the host at the matching level, and an omitted
/// argument must land on Info.
#[test]
fn log_levels_map_onto_tracing_levels() {
    let calls: [(Option<&[u8]>, &[u8]); 6] = [
        (Some(b"Error"), b"lvl-error"),
        (Some(b"Warning"), b"lvl-warning"),
        (Some(b"Info"), b"lvl-info"),
        (Some(b"Debug"), b"lvl-debug"),
        (Some(b"Trace"), b"lvl-trace"),
        (None, b"lvl-omitted"),
    ];
    let got: Vec<(Level, String)> = calls
        .iter()
        .map(|(case, msg)| {
            let r = log_record(*case, msg, b"");
            assert!(r.context.is_none());
            (r.level, r.message)
        })
        .collect();
    assert_eq!(
        got,
        vec![
            (Level::Error, "lvl-error".to_string()),
            (Level::Warn, "lvl-warning".to_string()),
            (Level::Info, "lvl-info".to_string()),
            (Level::Debug, "lvl-debug".to_string()),
            (Level::Trace, "lvl-trace".to_string()),
            (Level::Info, "lvl-omitted".to_string()),
        ],
        "each case must map to its own level, in order"
    );
    assert_eq!(level_from_case(Some(b"Fatal")), Level::Error);
    let r = log_record(None, b"caf\xe9", b"{\"a\":1}");
    assert_eq!(r.message, "caf\u{fffd}");
    assert_eq!(r.context.as_deref(), Some("{\"a\":1}"));
}

fn thrown(n: u64, previous: Option<Throwable>) -> Throwable {
    Throwable {
        class: b"LogicException".to_vec(),
        message: n,
        code: 42,
        file: 1,
        line: n + 10,
        previous: previous.map(Box::new),
    }
}

/// A chain of throwables is flattened down to a fixed depth, whatever its key.
#[test]
fn a_throwable_chain_is_cut_at_its_depth() {
    let mut chain = thrown(0, None);
    for n in 1..9 {
        chain = thrown(n, Some(chain));
    }
    let flat = flatten_throwable(&chain, 4);
    let mut seen = Vec::new();
    let mut at = Some(&flat);
    while let Some(f) = at {
        seen.push(f.message);
        at = f.previous.as_deref();
    }
    assert_eq!(seen, [8, 7, 6, 5, 4]);

    let context = vec![
        (ContextKey::Text(1), ContextValue::Plain(99)),
        (ContextKey::Index(0), ContextValue::Thrown(thrown(3, None))),
    ];
    let rebuilt = rebuild_context(&context);
    assert!(matches!(rebuilt[0], (ContextKey::Text(1), RebuiltValue::Plain(99))));
    let (ContextKey::Index(0), RebuiltValue::Flat(f)) = &rebuilt[1] else {
        panic!("the throwable is flattened under its own key");
    };
    assert_eq!((f.message, f.code, f.line), (3, 42, 13));
}

fn list(values: &[&[u8]]) -> TableEntry {
    TableEntry::List(values.iter().map(|v| TableItem::Text(v.to_vec())).collect())
}

/// Multi-value lists flatten to one field line per value, in order.
#[test]
fn multi_value_and_reference_headers_flatten() {
    let mut d = desk();
    let (mut st, mut rx) = pull(&mut d, req("/?probe=multi"), 1);
    let table = vec![
        (TableKey::Name(b"x-multi".to_vec()), list(&[b"a", b"b"])),
        (TableKey::Name(b"x-ref".to_vec()), list(&[b"r1"])),
        (TableKey::Name(b"x-vref".to_vec()), list(&[b"c1"])),
    ];
    let Ok(p) = st.resp.write_head(&mut d, 200, Some(&table)) else {
        panic!("a sound table");
    };
    assert_eq!(done(p), Verb::Accepted);
    done(st.resp.write_body(&mut d, b"", true));
    let Ok(Frame::Head { head, .. }) = rx.try_recv() else {
        panic!("head committed");
    };
    assert_eq!(head.status, 200);
    let value = |name: &str| -> Vec<String> {
        head.headers
            .iter()
            .filter(|(k, _)| k == name)
            .map(|(_, v)| String::from_utf8_lossy(v).into_owned())
            .collect()
    };
    assert_eq!(value("x-multi"), ["a", "b"], "one field line per list value, in order");
    assert_eq!(value("x-ref"), ["r1"]);
    assert_eq!(value("x-vref"), ["c1"]);
}

/// A 1xx head (other than 101) is advisory: accepted, and the unit stays open
/// for the real head.
#[test]
fn interim_head_is_dropped() {
    let mut d = desk();
    let (mut st, mut rx) = pull(&mut d, req("/?probe=interim"), 1);
    assert_eq!(head(&mut st, &mut d, 103), Verb::Interim);
    assert!(!st.resp.is_finalized());
    done(st.resp.write_body(&mut d, b"after-interim finalized=false", true));
    assert_eq!(drain(&mut rx), (200, "after-interim finalized=false".to_string()));
}

/// Contract: an empty chunk without eos does nothing - in particular it must not
/// commit the implicit 200 and lock out a later head.
#[test]
fn empty_non_eos_chunk_does_nothing() {
    let mut d = desk();
    let (mut st, mut rx) = pull(&mut d, req("/?probe=empty-chunk"), 1);
    done(st.resp.write_body(&mut d, b"", false));
    assert_eq!(head(&mut st, &mut d, 404), Verb::Accepted);
    done(st.resp.write_body(&mut d, b"body", true));
    assert_eq!(drain(&mut rx), (404, "body".to_string()));
}

/// The polling verbs' success paths: a unit comes out of either.
#[test]
fn try_and_timed_receive_serve_units() {
    let mut d = desk();
    for (id, mode) in [(1, RecvMode::Try), (2, RecvMode::Wait(1_000_000))] {
        let (tx, mut rx) = channel(8);
        let job: Job<u32> = Job { ctx: Context::new(req("/one"), tx, false) };
        let Received::Unit(mut st) = on_pulled(&mut d, Pulled::Job(job), mode, id) else {
            panic!("a unit comes out");
        };
        assert_eq!(st.target, b"/one");
        done(st.resp.write_body(&mut d, b"served", true));
        assert_eq!(drain(&mut rx), (200, "served".to_string()));
    }
}

/// A host-parsed multipart body reaches the script as the object graph, and the
/// spool file is handed out before the end of the stream is.
#[test]
fn multipart_body_reaches_php_and_spools_die_at_seal() {
    let mut d = desk();
    let mut rq = req("/");
    let mut upload = file(b"f", b"a.bin", b"/tmp/mp", 7);
    upload.client_media_type = Some(b"application/octet-stream".to_vec());
    rq.body = Body::Multipart(MultipartBody {
        fields: vec![form_field(b"note", b"hello")],
        files: vec![upload],
    });
    let (mut st, mut rx) = pull(&mut d, rq, 1);
    let BodyObject::Multipart { fields, files } = st.build_request().body else {
        panic!("a multipart body");
    };
    assert_eq!((fields.len(), files.len()), (1, 1));
    assert_eq!((fields[0].name.as_slice(), fields[0].value.as_slice()), (&b"note"[..], &b"hello"[..]));
    assert_eq!(files[0].client_filename, b"a.bin");
    assert_eq!(files[0].client_media_type.as_deref(), Some(&b"application/octet-stream"[..]));
    assert_eq!(files[0].size, 7);
    let Progress::Unlink(gone) = st.resp.write_body(&mut d, b"ok", true) else {
        panic!("the spool goes before the end");
    };
    assert_eq!(gone, vec![b"/tmp/mp".to_vec()]);
    assert_eq!(drain(&mut rx), (200, "ok".to_string()));
    done(st.resp.resume(&mut d));
    assert!(matches!(rx.try_recv(), Ok(Frame::End { truncated: false, .. })));
}

/// An abandoned unit that holds a multipart body hands its spool out the moment
/// the exchange dies.
#[test]
fn an_abandoned_unit_hands_its_spool_out() {
    let mut d = desk();
    let mut rq = req("/");
    rq.body = Body::Multipart(MultipartBody {
        fields: Vec::new(),
        files: vec![file(b"f", b"a.bin", b"/tmp/gone", 7)],
    });
    let (mut st, _rx) = pull(&mut d, rq, 1);
    assert_eq!(st.resp.abandon(&mut d, 1), vec![b"/tmp/gone".to_vec()]);
}

/// The path read back for an open file stands, unless the file was removed.
#[test]
fn fd_path_reads_back_the_real_path() {
    assert_eq!(fd_path(Some(b"/tmp/x".to_vec())), Some(b"/tmp/x".to_vec()));
    assert_eq!(fd_path(Some(b"/tmp/x (deleted)".to_vec())), None);
    assert_eq!(fd_path(None), None);
}
