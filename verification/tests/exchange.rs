use rapira::channel::Offered;
use rapira::context::Context;
use rapira::cycle::{CycleState, Desk};
use rapira::exchange::{AddrOwned, ExchangeState, Job};
use rapira::frames::Frame;
use rapira::headers::{forbidden_trailer, wire_token, wire_value, TableEntry, TableItem, TableKey};
use rapira::quota::install;
use rapira::respond::{Progress, Respond, Stage, Verb, MAX_BUFFERED_BODY};
use rapira::scoreboard::SharedSlot;
use rapira::sending::offer;
use rapira::sendfile::{admit_candidate, admit_opened, fd_path, FileFault, FileMeta, SendfileRoot};
use rapira::types::{Addr, Body, FormField, MultipartBody, Request, UploadedFile};
use rapira::verbs::ArgFault;
use rapira::worker_board::{sb_set, WorkerBoard};
use tokio::sync::mpsc::{channel, Receiver};

fn inet() -> Addr {
    Addr::Inet { ip: "127.0.0.1".to_string(), v6: false, scope_id: 0, port: 8080 }
}

fn base_req() -> Request {
    Request {
        method: String::new(),
        uri: "/".to_string(),
        target: None,
        authority: None,
        https: false,
        query: String::new(),
        protocol: String::new(),
        remote: inet(),
        server: inet(),
        server_name: String::new(),
        server_port: 8080,
        script_name: String::new(),
        document_root: String::new(),
        script_filename: Vec::new(),
        headers: Vec::new(),
        server_vars: Vec::new(),
        content_type: None,
        content_length: 0,
        body: Body::Raw { data: Vec::new(), pos: 0 },
        received_at: None,
        tls: None,
    }
}

fn desk() -> Desk {
    let mut slot = SharedSlot {
        state: 0,
        pid: 0,
        handled: 0,
        errors: 0,
        recycles: 0,
        restarts: 0,
        unhealthy: 0,
        last_activity_ms: 0,
    };
    slot.bind(7, 0);
    let mut board = WorkerBoard {
        slot: None,
        draining: false,
        quota: install(0, false, false),
        due: Vec::new(),
    };
    sb_set(&mut board, slot);
    Desk { cycle: CycleState::idle(), board }
}

/// A sealed response stream, collected.
enum Sealed {
    Complete { status: u16, body: Vec<u8> },
    Truncated { status: Option<u16>, body: Vec<u8> },
    Nothing,
}

fn recv_sealed(rx: &mut Receiver<Frame<u32>>) -> Sealed {
    let (mut status, mut body, mut saw_frames) = (None, Vec::new(), false);
    while let Ok(frame) = rx.try_recv() {
        saw_frames = true;
        match frame {
            Frame::Interim(_) | Frame::File { .. } => {}
            Frame::Head { head, .. } => status = Some(head.status),
            Frame::Chunk(b) => body.extend_from_slice(&b),
            Frame::End { truncated, .. } => {
                return match (truncated, status) {
                    (true, status) => Sealed::Truncated { status, body },
                    (false, Some(status)) => Sealed::Complete { status, body },
                    (false, None) => Sealed::Nothing,
                };
            }
        }
    }
    if saw_frames {
        panic!("stream carried frames but no End");
    }
    Sealed::Nothing
}

fn state_of(req: Request) -> (ExchangeState<u32>, Receiver<Frame<u32>>) {
    // room for a full event trio with no reader (seal must not park)
    let (tx, rx) = channel(64);
    let job = Job { ctx: Context::new(req, tx, false) };
    let Ok(st) = ExchangeState::new(job) else {
        unreachable!("an empty body always reads")
    };
    (st, rx)
}

fn state() -> (ExchangeState<u32>, Receiver<Frame<u32>>) {
    state_of(base_req())
}

fn done(p: Progress) -> Verb {
    match p {
        Progress::Done(v) => v,
        Progress::Full => panic!("the channel has room"),
        Progress::Unlink(_) => panic!("nothing is spooled"),
    }
}

fn field(name: &str, value: &[u8]) -> (String, Vec<u8>) {
    (name.to_string(), value.to_vec())
}

fn write_head(
    st: &mut ExchangeState<u32>,
    d: &mut Desk,
    status: u16,
    headers: Vec<(String, Vec<u8>)>,
) -> Verb {
    st.resp.write_head_core(false, status, headers);
    done(st.resp.advance(d))
}

fn write_body(st: &mut ExchangeState<u32>, d: &mut Desk, data: &[u8], eos: bool) -> Verb {
    done(st.resp.write_body(d, data, eos))
}

/// The buffer cap must seal (truncated) rather than merely error: an unsealed
/// overflow leaves the unit in Handling and wedges every later receive() on the
/// single-flight check for the life of the worker.
#[test]
fn overflow_seals_the_unit_truncated() {
    let (mut st, mut rx) = state();
    let mut d = desk();
    let giant = vec![b'x'; MAX_BUFFERED_BODY + 1];
    let v = write_body(&mut st, &mut d, &giant, false);
    assert_eq!(v, Verb::Overflow);

    let Sealed::Truncated { status, body } = recv_sealed(&mut rx) else {
        panic!("overflow must seal a truncated stream");
    };
    assert_eq!(status, Some(200));
    assert!(body.is_empty(), "the overflowing chunk is never sent");

    // The unit is concluded: later verbs see Finalized, not a wedge.
    let v = write_body(&mut st, &mut d, b"y", true);
    assert_eq!(v, Verb::Finalized);
    assert!(st.resp.is_finalized());
}

/// A 304 head drops accepted body chunks at seal, like 204 and HEAD.
#[test]
fn seal_drops_the_body_for_304() {
    let (mut st, mut rx) = state();
    let mut d = desk();
    assert_eq!(write_head(&mut st, &mut d, 304, Vec::new()), Verb::Accepted);
    let v = write_body(&mut st, &mut d, b"gone", true);
    assert_eq!(v, Verb::Accepted);
    let Sealed::Complete { status, body } = recv_sealed(&mut rx) else {
        panic!("must seal cleanly");
    };
    assert_eq!(status, 304);
    assert!(body.is_empty(), "304 carries no body");
}

/// Contract: an empty chunk without eos does nothing - no head commits.
#[test]
fn empty_non_eos_chunk_commits_nothing() {
    let (mut st, mut rx) = state();
    let mut d = desk();
    let v = write_body(&mut st, &mut d, b"", false);
    assert_eq!(v, Verb::Accepted);
    assert_eq!(
        write_head(&mut st, &mut d, 404, Vec::new()),
        Verb::Accepted,
        "the head slot must still be open"
    );
    let v = write_body(&mut st, &mut d, b"x", true);
    assert_eq!(v, Verb::Accepted);
    let Sealed::Complete { status, .. } = recv_sealed(&mut rx) else {
        panic!("must seal cleanly");
    };
    assert_eq!(status, 404);
}

/// The wire validators hold names and values to their byte sets.
#[test]
fn wire_validators_match_the_classic_byte_sets() {
    assert!(wire_token(b"x-trace"));
    assert!(!wire_token(b""));
    assert!(!wire_token(b"bad name"));
    assert!(!wire_token(b"x:y"));
    assert!(wire_value(b"a\tb \xff"));
    assert!(!wire_value(b"a\x01b"));
    assert!(!wire_value(b"a\x7fb"));
    assert!(!wire_value(b"split\r\nx: y"));
    assert!(!wire_value(b"nul\0"));
}

/// Construction normalizes the contract protocol spelling and treats an empty
/// unix path as the unnamed endpoint.
#[test]
fn construction_normalizes_protocol_and_empty_unix_path() {
    let mut req = base_req();
    req.protocol = "HTTP/3.0".to_string();
    req.remote = Addr::Unix(Some(Vec::new()));
    let (st, _rx) = state_of(req);
    assert_eq!(st.protocol_php, "HTTP/3");
    assert!(matches!(st.remote, AddrOwned::Unix(None)));
}

/// A one-shot body write carries its computed length on the Head frame; a
/// streamed first write leaves the framing to the front.
#[test]
fn head_frame_length_follows_the_write_shape() {
    let (mut st, mut rx) = state();
    let mut d = desk();
    let v = write_body(&mut st, &mut d, b"abc", true);
    assert_eq!(v, Verb::Accepted);
    let Ok(Frame::Head { content_length, .. }) = rx.try_recv() else {
        panic!("head first");
    };
    assert_eq!(content_length, Some(3));

    let (mut st, mut rx) = state();
    let v = write_body(&mut st, &mut d, b"abc", false);
    assert_eq!(v, Verb::Accepted);
    let Ok(Frame::Head { content_length, .. }) = rx.try_recv() else {
        panic!("head first");
    };
    assert_eq!(content_length, None, "streaming: the front frames");
}

/// The prefix rule: the fitting bytes go out, the response completes per its
/// declaration (not truncated), and later writes see Finalized.
#[test]
fn content_length_exceeded_sends_the_prefix_and_seals() {
    let (mut st, mut rx) = state();
    let mut d = desk();
    let v = write_head(&mut st, &mut d, 200, vec![field("content-length", b"5")]);
    assert_eq!(v, Verb::Accepted);
    let v = write_body(&mut st, &mut d, b"0123456789", true);
    assert_eq!(v, Verb::ContentLengthExceeded);

    let Ok(Frame::Head { content_length, .. }) = rx.try_recv() else {
        panic!("head first");
    };
    assert_eq!(content_length, Some(5), "the declared length is honoured");
    let Ok(Frame::Chunk(b)) = rx.try_recv() else {
        panic!("the fitting prefix must be sent");
    };
    assert_eq!(&b[..], b"01234");
    let Ok(Frame::End { truncated, .. }) = rx.try_recv() else {
        panic!("sealed");
    };
    assert!(!truncated, "complete per its declaration");

    let v = write_body(&mut st, &mut d, b"x", true);
    assert_eq!(v, Verb::Finalized, "nothing written after it");
}

/// A repeated content-length in the head table is a refused field.
#[test]
fn repeated_content_length_is_a_bad_field() {
    let (mut st, _rx) = state();
    let mut d = desk();
    let v = write_head(
        &mut st,
        &mut d,
        200,
        vec![field("content-length", b"5"), field("Content-Length", b"7")],
    );
    assert!(matches!(v, Verb::BadField(_)));
    assert_eq!(st.resp.stage, Stage::Open, "a rejected head commits nothing");
}

/// An interim head emits at once, minus framing fields, and leaves the
/// final-head slot open.
#[test]
fn interim_head_emits_without_framing_fields() {
    let (mut st, mut rx) = state();
    let mut d = desk();
    let v = write_head(
        &mut st,
        &mut d,
        103,
        vec![
            field("link", b"</a.css>; rel=preload"),
            field("content-length", b"5"),
            field("connection", b"close"),
        ],
    );
    assert_eq!(v, Verb::Interim);
    let Ok(Frame::Interim(head)) = rx.try_recv() else {
        panic!("interim head must be on the stream");
    };
    assert_eq!(head.status, 103);
    assert_eq!(head.headers.len(), 1, "framing fields stripped: {:?}", head.headers);
    assert_eq!(head.headers[0].0, "link");
    let v = write_head(&mut st, &mut d, 200, Vec::new());
    assert_eq!(v, Verb::Accepted, "the final-head slot stays open");
}

/// A gone client discards the unit exactly once; the latch is sticky and the
/// unit reports finalized and cancelled.
#[test]
fn gone_client_discards_once_and_stays_discarded() {
    let (mut st, rx) = state();
    let mut d = desk();
    drop(rx);
    let v = write_body(&mut st, &mut d, b"x", false);
    assert_eq!(v, Verb::Discarded);
    let v = write_body(&mut st, &mut d, b"y", true);
    assert_eq!(v, Verb::Discarded, "sticky across repeat writes");

    assert!(st.resp.is_finalized());
    assert!(st.resp.is_cancelled());
    let slot = d.board.slot.unwrap();
    assert_eq!((slot.handled, slot.errors), (1, 1), "counted once, as failed");
}

/// `flush()` commits and emits the implicit 200 once; a repeat flush puts
/// nothing new on the stream.
#[test]
fn flush_emits_the_implicit_head_once() {
    let (mut st, mut rx) = state();
    let mut d = desk();
    assert_eq!(done(st.resp.flush(&mut d)), Verb::Accepted);
    let Ok(Frame::Head { head, content_length, .. }) = rx.try_recv() else {
        panic!("flush must emit the head");
    };
    assert_eq!(head.status, 200);
    assert!(head.headers.is_empty(), "implicit 200 has no fields");
    assert_eq!(content_length, None, "flush costs the computed length");
    assert_eq!(done(st.resp.flush(&mut d)), Verb::Accepted);
    assert!(rx.try_recv().is_err(), "a repeat flush is a no-op");
}

/// A committed 101 is bodiless: chunks are accepted and dropped.
#[test]
fn a_101_head_drops_body_chunks() {
    let (mut st, mut rx) = state();
    let mut d = desk();
    assert_eq!(write_head(&mut st, &mut d, 101, Vec::new()), Verb::Accepted);
    let v = write_body(&mut st, &mut d, b"upgrade", true);
    assert_eq!(v, Verb::Accepted);
    let Ok(Frame::Head { bodiless, .. }) = rx.try_recv() else {
        panic!("head first");
    };
    assert!(bodiless);
    assert!(
        matches!(rx.try_recv(), Ok(Frame::End { .. })),
        "no chunk frames for a 1xx response"
    );
}

fn bytes(s: &str) -> Vec<u8> {
    s.as_bytes().to_vec()
}

/// The judgement on one file: what the file system said of its path, then of
/// the open file.
fn opened(
    canonical: Option<&str>,
    root: &SendfileRoot,
    held: Option<&str>,
    meta: Option<FileMeta>,
    offset: u64,
    length: Option<u64>,
) -> Result<(u32, u64), FileFault> {
    admit_candidate(canonical.map(bytes), root.sendfile_root())?;
    let inside = root.sendfile_root().clone().unwrap();
    let len = admit_opened(fd_path(held.map(bytes)), &inside, meta, offset, length)?;
    Ok((7, len))
}

/// sendFile validation: every refusal is raised before anything is written.
#[test]
fn send_file_validation_table() {
    let mut root = SendfileRoot { root: None };
    root.set_sendfile_root(bytes("/srv/www"), Some(bytes("/srv/www")));
    let file = Some(FileMeta { regular: true, size: 26 });
    let dir = Some(FileMeta { regular: false, size: 4096 });
    let good = "/srv/www/sf";

    let (mut st, _rx) = state();
    let mut d = desk();
    for (name, opened, want) in [
        ("missing", opened(None, &root, None, None, 0, None), FileFault::Unreadable),
        (
            "directory",
            opened(Some("/srv/www"), &root, Some("/srv/www"), dir, 0, None),
            FileFault::NotRegular,
        ),
        (
            "offset past end",
            opened(Some(good), &root, Some(good), file, 27, None),
            FileFault::SliceTooLong,
        ),
        (
            "slice past end",
            opened(Some(good), &root, Some(good), file, 20, Some(10)),
            FileFault::SliceTooLong,
        ),
        (
            "outside the root",
            opened(Some("/etc/hosts"), &root, None, None, 0, None),
            FileFault::OutsideRoot,
        ),
        (
            "a name that only starts like the root",
            opened(Some("/srv/www2/x"), &root, None, None, 0, None),
            FileFault::OutsideRoot,
        ),
        (
            "swapped under the open",
            opened(Some(good), &root, Some("/etc/hosts"), file, 0, None),
            FileFault::OutsideRoot,
        ),
        (
            "removed under the open",
            opened(Some(good), &root, Some("/srv/www/sf (deleted)"), file, 0, None),
            FileFault::Unreadable,
        ),
    ] {
        let v = done(st.resp.send_file(&mut d, opened, 0, true));
        assert_eq!(v, Verb::FileNotSendable(want), "{name}");
    }
    // raised before anything is written: the unit stays open
    assert_eq!(st.resp.stage, Stage::Open);

    let (mut st, mut rx) = state();
    let slice = opened(Some(good), &root, Some(good), file, 2, Some(3));
    let v = done(st.resp.send_file(&mut d, slice, 2, true));
    assert_eq!(v, Verb::Accepted);
    let Ok(Frame::Head { content_length, .. }) = rx.try_recv() else {
        panic!("head first");
    };
    assert_eq!(content_length, Some(3), "the slice length is known up front");
    let Ok(Frame::File { offset, len, file }) = rx.try_recv() else {
        panic!("the file rides its own frame");
    };
    assert_eq!((offset, len, file), (2, 3, 7));
    assert!(matches!(rx.try_recv(), Ok(Frame::End { truncated: false, .. })));
    assert_eq!(st.resp.stage, Stage::Finalized);

    // without a length the rest of the file is sent
    let rest = opened(Some(good), &root, Some(good), Some(FileMeta { regular: true, size: 26 }), 6, None);
    assert_eq!(rest, Ok((7, 20)));
    // no root configured refuses everything
    let none = SendfileRoot { root: None };
    assert_eq!(
        admit_candidate(Some(bytes(good)), none.sendfile_root()),
        Err(FileFault::NoRoot)
    );
}

/// Trailers end the response through the End frame; repeat calls land on
/// Finalized, and a headless call is HeadNotWritten.
#[test]
fn trailers_finalize_with_a_committed_head() {
    let (mut st, mut rx) = state();
    let mut d = desk();
    st.resp.write_trailers_core(false, vec![field("x", b"y")]);
    let v = done(st.resp.advance(&mut d));
    assert_eq!(v, Verb::HeadNotWritten, "nothing here commits a head");

    assert_eq!(write_head(&mut st, &mut d, 200, Vec::new()), Verb::Accepted);
    st.resp.write_trailers_core(false, vec![field("x", b"y")]);
    let v = done(st.resp.advance(&mut d));
    assert_eq!(v, Verb::Accepted);
    let Ok(Frame::Head { content_length, .. }) = rx.try_recv() else {
        panic!("head first");
    };
    assert_eq!(content_length, Some(0), "trailers-only keeps length framing");
    let Ok(Frame::End { trailers, truncated }) = rx.try_recv() else {
        panic!("the trailers ride the End frame");
    };
    assert!(!truncated);
    assert_eq!(trailers, vec![("x".to_string(), b"y".to_vec())]);

    st.resp.write_trailers_core(false, Vec::new());
    let v = done(st.resp.advance(&mut d));
    assert_eq!(v, Verb::Finalized);
}

/// The forbidden set covers every category; unknown extension fields pass.
#[test]
fn trailer_denylist_matches_the_categories() {
    for name in [
        "Content-Length",
        "connection",
        "host",
        "authorization",
        "cache-control",
        "date",
        "content-type",
    ] {
        assert!(forbidden_trailer(name), "{name}");
    }
    assert!(!forbidden_trailer("x-checksum"));
    assert!(!forbidden_trailer("server-timing"));
}

fn multipart_req(path: &[u8]) -> Request {
    let mut req = base_req();
    req.body = Body::Multipart(MultipartBody {
        fields: vec![FormField {
            name: b"note".to_vec(),
            value: b"hello".to_vec(),
            headers: Vec::new(),
        }],
        files: vec![UploadedFile {
            name: b"f".to_vec(),
            client_filename: b"a.bin".to_vec(),
            client_media_type: None,
            headers: Vec::new(),
            file: rapira::spool::SpooledFile { path: path.to_vec() },
            size: 7,
        }],
    });
    req
}

/// Sealing hands the spool files out for removal before the end is sent; a
/// second removal finds nothing.
#[test]
fn seal_unlinks_the_spool_files() {
    let (mut st, mut rx) = state_of(multipart_req(b"/tmp/spooled"));
    let mut d = desk();
    let p = st.resp.write_body(&mut d, b"ok", true);
    let Progress::Unlink(gone) = p else {
        panic!("the spooled file must be handed out first");
    };
    assert_eq!(gone, vec![b"/tmp/spooled".to_vec()]);
    assert!(matches!(rx.try_recv(), Ok(Frame::Head { .. })));
    assert!(matches!(rx.try_recv(), Ok(Frame::Chunk(_))));
    assert!(rx.try_recv().is_err(), "no end while the file is still there");
    assert_eq!(done(st.resp.resume(&mut d)), Verb::Accepted);
    assert!(matches!(rx.try_recv(), Ok(Frame::End { truncated: false, .. })));
    assert!(st.resp.abandon(&mut d, 1).is_empty(), "nothing left to remove");
}

/// A full channel interrupts a verb, and resuming it delivers the rest in
/// order.
#[test]
fn a_full_channel_is_resumed() {
    let (tx, mut rx) = channel(1);
    let job = Job { ctx: Context::new(base_req(), tx, false) };
    let Ok(mut st) = ExchangeState::<u32>::new(job) else {
        panic!("the body reads");
    };
    let mut d = desk();
    assert!(matches!(st.resp.write_body(&mut d, b"abc", true), Progress::Full));
    assert!(matches!(rx.try_recv(), Ok(Frame::Head { .. })));
    assert!(matches!(st.resp.resume(&mut d), Progress::Full));
    let Ok(Frame::Chunk(b)) = rx.try_recv() else {
        panic!("the chunk follows the head");
    };
    assert_eq!(&b[..], b"abc");
    assert_eq!(done(st.resp.resume(&mut d)), Verb::Accepted);
    assert!(matches!(rx.try_recv(), Ok(Frame::End { truncated: false, .. })));
    assert!(rx.try_recv().is_err());
}

/// Arguments are judged before the unit is looked at.
#[test]
fn argument_faults_touch_nothing() {
    let (mut st, mut rx) = state();
    let mut d = desk();
    assert_eq!(st.resp.write_head(&mut d, 99, None).err(), Some(ArgFault::Status(99)));
    assert_eq!(st.resp.write_head(&mut d, 600, None).err(), Some(ArgFault::Status(600)));
    let bad = vec![(
        TableKey::Name(b"host".to_vec()),
        TableEntry::List(vec![TableItem::Text(b"x".to_vec())]),
    )];
    assert_eq!(
        st.resp.write_trailers(&mut d, Some(&bad)).err(),
        Some(ArgFault::TrailerForbidden)
    );
    let unsound = vec![(TableKey::Index(1), TableEntry::Other)];
    assert_eq!(
        st.resp.write_trailers(&mut d, Some(&unsound)).err(),
        Some(ArgFault::TrailerNotWire)
    );
    assert!(rx.try_recv().is_err());
    assert_eq!(st.resp.stage, Stage::Open);
}

/// A unit dropped unfinalized is failed by the host: a complete 500 when nothing
/// reached the wire, a truncated end otherwise, and nothing at all when the
/// cycle died.
#[test]
fn a_dropped_unit_is_answered_by_the_host() {
    let (mut st, mut rx) = state();
    let mut d = desk();
    d.cycle.hand_out(3);
    st.resp.abandon(&mut d, 3);
    st.resp.last_rites(false);
    let Sealed::Complete { status, body } = recv_sealed(&mut rx) else {
        panic!("a complete 500");
    };
    assert_eq!((status, body.len()), (500, 0));
    assert_eq!(d.cycle, CycleState { received: true, ..CycleState::idle() });
    assert_eq!(d.board.slot.unwrap().errors, 1);

    let (mut st, mut rx) = state();
    write_body(&mut st, &mut d, b"part", false);
    st.resp.abandon(&mut d, 4);
    st.resp.last_rites(false);
    let Sealed::Truncated { status, body } = recv_sealed(&mut rx) else {
        panic!("a truncated end");
    };
    assert_eq!((status, body), (Some(200), b"part".to_vec()));

    let (mut st, mut rx) = state();
    st.resp.abandon(&mut d, 5);
    st.resp.last_rites(true);
    assert!(matches!(recv_sealed(&mut rx), Sealed::Nothing));
}

/// A sealed unit is counted once, and dropping it afterwards adds nothing.
#[test]
fn the_last_words_stop_at_the_first_refusal() {
    let (tx, mut rx) = channel(1);
    let mut r: Respond<u32> = Respond::new(Some(tx), false, Vec::new());
    let words = r.last_frames(false);
    assert_eq!(words.len(), 2);
    assert!(matches!(
        &words[0],
        Frame::Head { head, content_length: Some(0), bodiless: false, body_coded: false }
            if head.status == 500
    ));
    assert!(matches!(&words[1], Frame::End { truncated: false, .. }));
    assert!(r.last_frames(true).is_empty());
    assert_eq!(r.last_rites(false), [Offered::Taken, Offered::Full]);
    assert!(r.sender.is_none() && r.last_frames(false).is_empty());
    assert!(matches!(rx.try_recv(), Ok(Frame::Head { .. })));
    assert!(rx.try_recv().is_err());

    let (tx, _rx) = channel(4);
    let mut r: Respond<u32> = Respond::new(Some(tx), false, Vec::new());
    r.head_sent = true;
    assert!(matches!(&r.last_frames(false)[..], [Frame::End { truncated: true, .. }]));
    assert_eq!(r.last_rites(false), [Offered::Taken]);
}

/// The frame that is due comes out, and an untaken one goes back to its place.
#[test]
fn a_frame_that_is_not_taken_goes_back() {
    let mut d = desk();
    let (tx, mut rx) = channel(1);
    let mut r: Respond<u32> = Respond::new(Some(tx), false, Vec::new());
    r.write_body_core(false, b"x", true);
    let frame = r.next_offer().expect("the head is due");
    assert!(matches!(frame, Frame::Head { content_length: Some(1), .. }));
    let head = frame.is_head();
    let a = offer(&r.sender, frame);
    assert_eq!(r.settle(a, head), Offered::Taken);
    let frame = r.next_offer().expect("the chunk is due");
    let head = frame.is_head();
    let a = offer(&r.sender, frame);
    assert_eq!(r.settle(a, head), Offered::Full);
    assert!(matches!(&r.outbox[..], [Frame::Chunk(b)] if &b[..] == b"x"));
    assert!(matches!(rx.try_recv(), Ok(Frame::Head { .. })));
    assert!(matches!(r.resume(&mut d), Progress::Full));
    assert!(matches!(rx.try_recv(), Ok(Frame::Chunk(_))));
    let frame = r.next_offer().expect("the end is due");
    assert!(matches!(&frame, Frame::End { truncated: false, .. }));
    drop(rx);
    let head = frame.is_head();
    let a = offer(&r.sender, frame);
    assert_eq!(r.settle(a, head), Offered::Closed);
    assert!(r.sender.is_none() && r.next_offer().is_none());
}

/// A write counts from its head on: a lost head leaves nothing counted, a lost
/// chunk leaves the write counted.
#[test]
fn a_lost_head_leaves_nothing_counted() {
    let mut d = desk();
    let (tx, rx) = channel(4);
    let mut r: Respond<u32> = Respond::new(Some(tx), false, Vec::new());
    r.write_body_core(false, b"abc", false);
    drop(rx);
    assert!(matches!(r.resume(&mut d), Progress::Done(Verb::Discarded)));
    assert_eq!(r.sent_body, 0);

    let (tx, mut rx) = channel(1);
    let mut r: Respond<u32> = Respond::new(Some(tx), false, Vec::new());
    r.write_body_core(false, b"abc", false);
    assert!(matches!(r.resume(&mut d), Progress::Full));
    assert!(matches!(rx.try_recv(), Ok(Frame::Head { .. })));
    drop(rx);
    assert!(matches!(r.resume(&mut d), Progress::Done(Verb::Discarded)));
    assert_eq!(r.sent_body, 3);
}

/// A declared length is met to the byte, over a run of writes.
#[test]
fn a_run_of_writes_meets_its_declared_length() {
    let mut d = desk();
    let (mut st, mut rx) = state();
    write_head(&mut st, &mut d, 200, vec![field("content-length", b"5")]);
    let verbs: Vec<Verb> = [&b"ab"[..], b"", b"cd", b"efg", b"h", b""]
        .iter()
        .map(|w| write_body(&mut st, &mut d, w, false))
        .collect();
    assert_eq!(
        verbs,
        [
            Verb::Accepted,
            Verb::Accepted,
            Verb::Accepted,
            Verb::ContentLengthExceeded,
            Verb::Finalized,
            Verb::Finalized,
        ]
    );
    assert_eq!(st.resp.sent_body, 5);
    assert!(
        matches!(recv_sealed(&mut rx), Sealed::Complete { status: 200, body } if body == b"abcde")
    );
}

/// A HEAD is answered as the GET, without a body and without a computed length.
#[test]
fn a_head_request_is_answered_like_the_get() {
    let mut outcomes: Vec<Vec<Verb>> = Vec::new();
    for method in ["GET", "HEAD"] {
        let mut d = desk();
        let mut rq = base_req();
        rq.method = method.to_string();
        let (mut st, mut rx) = state_of(rq);
        let verbs = vec![
            write_head(&mut st, &mut d, 200, Vec::new()),
            write_body(&mut st, &mut d, b"body", true),
            write_body(&mut st, &mut d, b"more", false),
        ];
        outcomes.push(verbs);
        let mut chunks = 0;
        while let Ok(f) = rx.try_recv() {
            match f {
                Frame::Head { content_length, bodiless, .. } => {
                    assert_eq!(bodiless, method == "HEAD");
                    assert_eq!(content_length, if bodiless { None } else { Some(4) });
                }
                Frame::Chunk(_) => chunks += 1,
                _ => {}
            }
        }
        assert_eq!(chunks, if method == "HEAD" { 0 } else { 1 });
    }
    assert_eq!(outcomes[0], outcomes[1]);
    assert_eq!(outcomes[0], [Verb::Accepted, Verb::Accepted, Verb::Finalized]);
}

#[test]
fn a_sealed_unit_is_not_counted_again() {
    let (mut st, _rx) = state();
    let mut d = desk();
    d.cycle.hand_out(9);
    write_body(&mut st, &mut d, b"x", true);
    st.resp.abandon(&mut d, 9);
    st.resp.last_rites(false);
    let slot = d.board.slot.unwrap();
    assert_eq!((slot.handled, slot.errors), (1, 0));
}
