use rapira::context::Context;
use rapira::cycle::{CycleState, Desk};
use rapira::exchange::{ExchangeState, Job};
use rapira::frames::{Frame, ResponseHead};
use rapira::front::HttpVersion;
use rapira::quota::install;
use rapira::reply::{reply_event, Front, FrontAction, FrontEvent, ReplyFault};
use rapira::respond::{Progress, Verb};
use rapira::types::{Addr, Body, Request};
use rapira::verbs::{throw_verb, ThrowClass};
use rapira::wire::WireHead;
use rapira::worker_board::WorkerBoard;
use tokio::sync::mpsc::{channel, Receiver};

fn request() -> Request {
    Request {
        method: "GET".to_string(),
        uri: "/".to_string(),
        target: None,
        authority: None,
        https: false,
        query: String::new(),
        protocol: "HTTP/1.1".to_string(),
        remote: Addr::Unix(None),
        server: Addr::Unix(None),
        server_name: "e2e".to_string(),
        server_port: 80,
        script_name: String::new(),
        document_root: String::new(),
        script_filename: Vec::new(),
        headers: Vec::new(),
        server_vars: Vec::new(),
        content_type: None,
        content_length: 0,
        body: Body::Raw { data: Vec::new(), pos: 0 },
        received_at: None,
        tls: None,
    }
}

fn desk() -> Desk {
    Desk {
        cycle: CycleState::idle(),
        board: WorkerBoard {
            slot: None,
            draining: false,
            quota: install(0, false, false),
            due: Vec::new(),
        },
    }
}

/// A worker's unit and the connection its response goes to.
struct Link {
    unit: ExchangeState<u32>,
    desk: Desk,
    rx: Option<Receiver<Frame<u32>>>,
    front: Front,
    chunked: bool,
    wire: Vec<u8>,
    heads: Vec<u16>,
    fault: Option<ReplyFault>,
    finished: bool,
}

fn render(head: &WireHead, out: &mut Vec<u8>) {
    out.extend_from_slice(format!("HTTP/1.1 {}\r\n", head.status).as_bytes());
    for (n, v) in &head.fields {
        out.extend_from_slice(n.to_ascii_lowercase().as_bytes());
        out.extend_from_slice(b": ");
        out.extend_from_slice(v);
        out.extend_from_slice(b"\r\n");
    }
    out.extend_from_slice(b"\r\n");
}

impl Link {
    fn open(version: HttpVersion) -> Link {
        let (tx, rx) = channel(16);
        let job = Job { ctx: Context::new(request(), tx, false) };
        let Ok(unit) = ExchangeState::new(job) else {
            unreachable!("the body reads")
        };
        Link {
            unit,
            desk: desk(),
            rx: Some(rx),
            front: Front::new(version, false),
            chunked: false,
            wire: Vec::new(),
            heads: Vec::new(),
            fault: None,
            finished: false,
        }
    }

    fn act(&mut self, action: FrontAction<u32>) {
        match action {
            FrontAction::Wait => {}
            FrontAction::WriteInterim(h) => {
                self.heads.push(h.status);
                render(&h, &mut self.wire);
            }
            FrontAction::WriteHead(h) => {
                self.heads.push(h.status);
                self.chunked = h.fields.iter().any(|(n, _)| n == "Transfer-Encoding");
                render(&h, &mut self.wire);
            }
            FrontAction::WriteBody(b) => {
                if self.chunked {
                    self.wire.extend_from_slice(format!("{:x}\r\n", b.len()).as_bytes());
                }
                self.wire.extend_from_slice(&b);
                if self.chunked {
                    self.wire.extend_from_slice(b"\r\n");
                }
            }
            FrontAction::PumpFile { len, .. } => self.front.pumped(len),
            FrontAction::Finish => {
                if self.chunked {
                    self.wire.extend_from_slice(b"0\r\n\r\n");
                }
                self.finished = true;
            }
            FrontAction::Fail(f) => self.fault = Some(f),
        }
    }

    /// Serves whatever the worker put on the stream so far.
    fn pump(&mut self) {
        while let Some(rx) = self.rx.as_mut() {
            match rx.try_recv() {
                Ok(frame) => {
                    let action = self.front.step(FrontEvent::Reply(reply_event(frame)));
                    self.act(action);
                }
                Err(_) => break,
            }
        }
    }

    fn done(&mut self, p: Progress) -> Verb {
        let Progress::Done(v) = p else { panic!("the channel has room") };
        self.pump();
        v
    }

    fn head(&mut self, status: u16, headers: &[(&str, &str)]) -> Verb {
        let headers = headers
            .iter()
            .map(|(k, v)| ((*k).to_owned(), v.as_bytes().to_vec()))
            .collect();
        self.unit.resp.write_head_core(false, status, headers);
        let p = self.unit.resp.advance(&mut self.desk);
        self.done(p)
    }

    fn body(&mut self, data: &[u8], eos: bool) -> Verb {
        let p = self.unit.resp.write_body(&mut self.desk, data, eos);
        self.done(p)
    }

    fn flush(&mut self) -> Verb {
        let p = self.unit.resp.flush(&mut self.desk);
        self.done(p)
    }

    fn text(&self) -> String {
        String::from_utf8_lossy(&self.wire).into_owned()
    }
}

/// `flush()` puts the head on the wire before the first body byte; each later
/// chunk arrives while the response is open.
#[test]
fn sse_head_and_events_reach_the_wire_incrementally() {
    let mut c = Link::open(HttpVersion::Http11);
    c.head(200, &[("content-type", "text/event-stream")]);
    assert!(c.wire.is_empty(), "committing is not sending");
    c.flush();
    assert_eq!(c.heads, [200]);
    assert!(
        c.text().contains("transfer-encoding: chunked\r\n"),
        "flush costs the length: chunked framing expected, got {}",
        c.text()
    );
    assert!(c.text().ends_with("\r\n\r\n"), "no body byte yet");
    c.body(b"data: one\n\n", false);
    assert!(c.text().contains("data: one"));
    assert!(!c.finished);
    c.body(b"data: two\n\n", false);
    assert!(c.text().contains("data: two"));
    c.body(b"", true);
    assert!(c.text().ends_with("0\r\n\r\n"), "the chunked terminator must close the stream");
    assert!(c.finished);
}

/// A chunked stream keeps the connection reusable.
#[test]
fn chunked_stream_preserves_keepalive() {
    let mut c = Link::open(HttpVersion::Http11);
    c.body(b"first,", false);
    c.body(b"second", true);
    assert_eq!(c.heads, [200]);
    assert!(c.text().contains("transfer-encoding: chunked\r\n"), "{}", c.text());
    assert!(c.text().ends_with("0\r\n\r\n"));
    assert!(c.front.keepalive, "reused connection must serve");
}

/// A 103 goes out as its own head block ahead of the final 200.
#[test]
fn interim_head_precedes_the_final_head() {
    let mut c = Link::open(HttpVersion::Http11);
    assert_eq!(c.head(103, &[("link", "</a.css>; rel=preload")]), Verb::Interim);
    assert_eq!(c.heads, [103]);
    assert!(c.text().contains("link: "), "{}", c.text());
    c.head(200, &[]);
    c.body(b"hello", true);
    assert_eq!(c.heads, [103, 200]);
    assert!(c.text().ends_with("\r\n\r\nhello"));
    assert!(c.finished);
}

/// An HTTP/1.0 client gets neither the interim head nor chunked framing.
#[test]
fn http10_gets_no_interim_and_no_chunked() {
    let mut c = Link::open(HttpVersion::Http10);
    c.head(103, &[("link", "</a.css>; rel=preload")]);
    assert!(c.wire.is_empty(), "the interim head must be dropped for 1.0");
    c.head(200, &[]);
    c.body(b"hel", false);
    c.body(b"lo", true);
    assert_eq!(c.heads, [200]);
    assert!(
        !c.text().contains("transfer-encoding"),
        "no chunked toward a 1.0 client: {}",
        c.text()
    );
    assert!(c.text().ends_with("\r\n\r\nhello"), "close-delimited body");
    assert!(c.finished && !c.front.keepalive);
}

/// The prefix on the wire: content-length 5, exactly the 5 fitting bytes, a
/// clean end (keepalive-safe framing).
#[test]
fn content_length_exceeded_serves_the_declared_prefix() {
    let mut c = Link::open(HttpVersion::Http11);
    c.head(200, &[("content-length", "5")]);
    assert_eq!(c.body(b"0123456789", true), Verb::ContentLengthExceeded);
    assert!(
        c.text().contains("content-length: 5"),
        "declared length must be honoured: {}",
        c.text()
    );
    // anchored to the head terminator: the body is exactly the 5 bytes
    assert!(c.text().ends_with("\r\n\r\n01234"), "exactly the fitting prefix: {}", c.text());
    assert!(c.finished && c.front.keepalive);
}

/// A client that walks away mid-stream surfaces as a discarded unit in the
/// worker.
#[test]
fn client_abort_discards_the_unit() {
    let mut c = Link::open(HttpVersion::Http11);
    c.flush();
    assert_eq!(c.heads, [200]);
    let action = c.front.step(FrontEvent::ClientClosed);
    c.act(action);
    assert_eq!(c.fault, Some(ReplyFault::ClientClosed));
    c.rx = None;

    let v = c.body(b"late", false);
    assert_eq!(v, Verb::Discarded);
    assert_eq!(throw_verb(v).map(|t| t.0), Some(ThrowClass::WorkDiscarded));
}

/// A worker dying mid-stream must not fake a clean end: the chunked terminator
/// never arrives.
#[test]
fn worker_death_mid_stream_truncates_the_response() {
    let mut c = Link::open(HttpVersion::Http11);
    c.body(b"first,", false);
    assert_eq!(c.heads, [200]);
    assert!(c.text().ends_with("6\r\nfirst,\r\n"));
    // the worker died: its side of the channel goes without an end
    c.unit.resp.sender = None;
    c.pump();
    let action = c.front.step(FrontEvent::ReplyGone);
    c.act(action);
    assert_eq!(c.fault, Some(ReplyFault::Truncated));
    assert!(
        !c.text().ends_with("0\r\n\r\n"),
        "no clean terminator after a mid-stream death"
    );
    assert!(!c.finished && !c.front.keepalive);
}

/// Trailers are dropped on h1 - the response still ends cleanly, with no trailer
/// bytes in the chunked epilogue, and the connection stays reusable.
#[test]
fn trailers_are_dropped_on_h1_and_the_response_ends_cleanly() {
    let mut c = Link::open(HttpVersion::Http11);
    c.body(b"payload", false);
    c.unit.resp.write_trailers_core(false, vec![("x-sum".to_string(), b"1".to_vec())]);
    let p = c.unit.resp.advance(&mut c.desk);
    assert_eq!(c.done(p), Verb::Accepted);
    assert_eq!(c.heads, [200]);
    assert!(c.text().contains("transfer-encoding: chunked\r\n"), "{}", c.text());
    assert!(c.text().contains("payload"));
    assert!(
        c.text().ends_with("0\r\n\r\n"),
        "a clean terminator with no trailer section"
    );
    assert!(!c.text().contains("x-sum"));
    // the connection survives the dropped section
    assert!(c.front.keepalive);
}

/// A worker that stops short of its declared length is not served as complete.
#[test]
fn a_short_body_is_not_served_as_complete() {
    let mut c = Link::open(HttpVersion::Http11);
    c.head(200, &[("content-length", "9")]);
    c.body(b"short", true);
    assert_eq!(c.fault, Some(ReplyFault::Truncated));
    assert!(!c.finished);
}

/// A worker that dies before its head is a bad gateway, and so is one that ends
/// without a head.
#[test]
fn a_headless_reply_fails_before_anything_is_written() {
    let mut c = Link::open(HttpVersion::Http11);
    let action = c.front.step(FrontEvent::ReplyGone);
    c.act(action);
    assert_eq!(c.fault, Some(ReplyFault::DiedBeforeHead));
    assert_eq!(c.fault.and_then(|f| f.status()), Some(502));

    let mut f = Front::new(HttpVersion::Http11, false);
    let end: FrontEvent<u32> = FrontEvent::Reply(reply_event(Frame::End {
        trailers: Vec::new(),
        truncated: false,
    }));
    assert!(matches!(f.step(end), FrontAction::Fail(ReplyFault::NoHead)));
    assert_eq!(ReplyFault::NoHead.status(), Some(502));
    assert_eq!(ReplyFault::Truncated.status(), None);
    assert_eq!(ReplyFault::ClientClosed.status(), None);
}

/// A head that cannot be built still costs an old client its connection.
#[test]
fn an_impossible_status_still_ends_an_old_connection() {
    let head = |status| -> FrontEvent<u32> {
        FrontEvent::Reply(reply_event(Frame::Head {
            head: ResponseHead { status, headers: Vec::new() },
            content_length: None,
            bodiless: false,
            body_coded: false,
        }))
    };
    let mut f = Front::new(HttpVersion::Http10, false);
    let a = f.step(head(1000));
    assert!(matches!(a, FrontAction::Fail(ReplyFault::BadStatus(1000))));
    assert!(!f.keepalive && !f.head_seen);
    assert_eq!(ReplyFault::BadStatus(1000).status(), Some(500));
    let mut f = Front::new(HttpVersion::Http11, false);
    f.step(head(1000));
    assert!(f.keepalive);
}

/// A client that sends more while the response streams is no longer watched, and
/// its connection is not reused.
#[test]
fn a_talkative_client_loses_its_connection() {
    let mut f = Front::new(HttpVersion::Http11, false);
    let ev: FrontEvent<u32> = FrontEvent::ClientOther;
    assert!(matches!(f.step(ev), FrontAction::Wait));
    assert!(!f.watch_idle && !f.keepalive);
}
