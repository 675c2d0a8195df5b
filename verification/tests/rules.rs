use rapira::cgi::ReqC;
use rapira::context::{status_field_code, Context};
use rapira::fold::fold_field_lines;
use rapira::frames::{Frame, ResponseHead};
use rapira::headers::{
    parse_content_length, walk_head_table, FieldFault, TableEntry, TableItem, TableKey,
};
use rapira::sapi::{header_lines, name_value, proto_num, read_post, response_status, send_headers};
use rapira::server_vars::register_server_variables;
use rapira::types::{Addr, Body, Request, StreamState};

fn hdrs(pairs: &[(&str, &str)]) -> Vec<(String, Vec<u8>)> {
    pairs.iter().map(|(k, v)| ((*k).to_owned(), v.as_bytes().to_vec())).collect()
}

#[test]
fn repeated_field_lines_fold_on_their_separator() {
    let folded = fold_field_lines(&hdrs(&[
        ("cookie", "a=1"),
        ("x-forwarded-for", "1.2.3.4"),
        ("Cookie", "b=2"),
        ("x-forwarded-for", "5.6.7.8"),
    ]));
    assert_eq!(
        folded,
        hdrs(&[("cookie", "a=1; b=2"), ("x-forwarded-for", "1.2.3.4, 5.6.7.8")])
    );
}

#[test]
fn repeated_singleton_field_lines_keep_only_the_first() {
    let folded = fold_field_lines(&hdrs(&[
        ("authorization", "Bearer one"),
        ("Authorization", "Bearer two"),
        ("content-type", "text/plain"),
    ]));
    assert_eq!(
        folded,
        hdrs(&[("authorization", "Bearer one"), ("content-type", "text/plain")])
    );
}

#[test]
fn folding_twice_changes_nothing() {
    let once = fold_field_lines(&hdrs(&[("a", "1"), ("A", "2"), ("b", "3"), ("a", "4")]));
    assert_eq!(once, hdrs(&[("a", "1, 2, 4"), ("b", "3")]));
    assert_eq!(fold_field_lines(&once), once);
}

#[test]
fn status_field_code_takes_the_leading_integer() {
    assert_eq!(status_field_code(b"404"), Some(404));
    assert_eq!(status_field_code(b"404 Not Found"), Some(404));
    assert_eq!(status_field_code(b"  503   "), Some(503));
}

/// An unparseable or out-of-range value leaves the status alone.
#[test]
fn status_field_code_rejects_implausible_values() {
    assert_eq!(status_field_code(b""), None);
    assert_eq!(status_field_code(b"Not Found"), None);
    assert_eq!(status_field_code(b"99"), None);
    assert_eq!(status_field_code(b"600"), None);
    assert_eq!(status_field_code(b"70000"), None);
}

#[test]
fn status_field_code_reads_a_signed_number_like_the_integer_parser() {
    assert_eq!(status_field_code(b"+404"), Some(404));
    assert_eq!(status_field_code(b"+"), None);
    assert_eq!(status_field_code(b"-404"), None);
    assert_eq!(status_field_code(b"\x0b404"), None);
}

fn request() -> Request {
    Request {
        method: String::new(),
        uri: String::new(),
        target: None,
        authority: None,
        https: false,
        query: String::new(),
        protocol: String::new(),
        remote: Addr::Inet { ip: "127.0.0.1".to_string(), v6: false, scope_id: 0, port: 8080 },
        server: Addr::Inet { ip: "127.0.0.1".to_string(), v6: false, scope_id: 0, port: 8080 },
        server_name: String::new(),
        server_port: 8080,
        script_name: String::new(),
        document_root: String::new(),
        script_filename: Vec::new(),
        headers: Vec::new(),
        server_vars: Vec::new(),
        content_type: None,
        content_length: -1,
        body: Body::Raw { data: Vec::new(), pos: 0 },
        received_at: None,
        tls: None,
    }
}

fn context() -> Context<u32> {
    Context {
        req: request(),
        c: None,
        sender: None,
        head: None,
        body: Vec::new(),
        stream: StreamState::NotSent,
        tearing_down: false,
    }
}

fn head_of(status: u16, headers: &[(&str, &str)]) -> ResponseHead {
    let mut ctx = context();
    ctx.commit_head(status, hdrs(headers));
    ctx.head.expect("commit_head records a head")
}

/// The `Status:` field sets the code, never reaches the client, and the match is
/// case-insensitive.
#[test]
fn commit_head_consumes_the_status_field() {
    let head = head_of(200, &[("status", "404 Not Found"), ("X-Keep", "kept")]);
    assert_eq!(head.status, 404);
    assert_eq!(head.headers.len(), 1);
    assert_eq!(head.headers[0].0, "X-Keep");
}

/// A `Status:` that cannot be parsed must still be consumed, but it must not
/// invent a code.
#[test]
fn commit_head_drops_an_unparseable_status_without_changing_the_code() {
    let head = head_of(201, &[("Status", "NotFound")]);
    assert_eq!(head.status, 201);
    assert!(head.headers.is_empty());
}

/// `Status` is authoritative over whatever code was already recorded.
#[test]
fn commit_head_lets_the_status_field_override_the_recorded_code() {
    assert_eq!(head_of(500, &[("Status", "404")]).status, 404);
}

#[test]
fn content_length_values_are_trimmed_decimals() {
    assert_eq!(parse_content_length(b" 42\t"), Some(42));
    assert_eq!(parse_content_length("\u{a0}7\u{2003}".as_bytes()), Some(7));
    assert_eq!(parse_content_length(b""), None);
    assert_eq!(parse_content_length(b"+1"), None);
    assert_eq!(parse_content_length(b"1 2"), None);
    assert_eq!(parse_content_length(b"18446744073709551615"), Some(u64::MAX));
    assert_eq!(parse_content_length(b"18446744073709551616"), None);
    assert_eq!(parse_content_length(b"\xff"), None);
}

#[test]
fn a_head_table_is_flattened_line_by_line() {
    let t = vec![
        (
            TableKey::Name(b"x-multi".to_vec()),
            TableEntry::List(vec![TableItem::Text(b"a".to_vec()), TableItem::Text(b"b".to_vec())]),
        ),
        (TableKey::Name(b"x-one".to_vec()), TableEntry::List(vec![TableItem::Text(b"c".to_vec())])),
    ];
    assert_eq!(
        walk_head_table(Some(&t)).unwrap(),
        hdrs(&[("x-multi", "a"), ("x-multi", "b"), ("x-one", "c")])
    );
    assert!(walk_head_table(None).unwrap().is_empty());
}

#[test]
fn an_unsound_head_table_names_its_first_fault() {
    let text = |b: &[u8]| TableEntry::List(vec![TableItem::Text(b.to_vec())]);
    let name = |n: &[u8]| TableKey::Name(n.to_vec());
    let fault = |t: Vec<(TableKey, TableEntry)>| walk_head_table(Some(&t)).unwrap_err();
    assert_eq!(fault(vec![(name(b"bad name"), text(b"x"))]), FieldFault::NameNotWire);
    assert_eq!(fault(vec![(TableKey::Index(3), text(b"x"))]), FieldFault::NameNotWire);
    assert_eq!(fault(vec![(name(b"a"), text(b"x\r\ny"))]), FieldFault::ValueNotWire);
    assert_eq!(fault(vec![(name(b"a"), TableEntry::Other)]), FieldFault::EntryNotList);
    assert_eq!(
        fault(vec![(name(b"a"), TableEntry::List(vec![TableItem::Other]))]),
        FieldFault::ValueNotWire
    );
    assert_eq!(
        fault(vec![(name(b"a"), text(b"\0")), (name(b""), TableEntry::Other)]),
        FieldFault::ValueNotWire
    );
    assert_eq!(
        FieldFault::NameNotWire.message(),
        "header name is not representable on the wire"
    );
}

fn views(frames: &[Frame<u32>]) -> Vec<String> {
    frames
        .iter()
        .map(|f| match f {
            Frame::Interim(h) => format!("interim {}", h.status),
            Frame::Head { head, content_length, bodiless, body_coded } => {
                format!("head {} {:?} {} {}", head.status, content_length, bodiless, body_coded)
            }
            Frame::Chunk(b) => format!("chunk {}", b.len()),
            Frame::File { len, .. } => format!("file {len}"),
            Frame::End { truncated, .. } => format!("end {truncated}"),
        })
        .collect()
}

#[test]
fn a_buffered_response_becomes_head_chunk_end() {
    let (tx, _rx) = tokio::sync::mpsc::channel(4);
    let mut ctx: Context<u32> = Context::new(request(), tx, false);
    ctx.commit_head(200, hdrs(&[("Content-Encoding", "gzip")]));
    ctx.write_output(200, b"hello");
    assert_eq!(ctx.stream, StreamState::BodyStreamed);
    let out = ctx.finish(false).expect("sealed once");
    assert_eq!(views(&out.frames), ["head 200 Some(5) false true", "chunk 5", "end false"]);
    assert!(ctx.finish(false).is_none(), "a second seal is a no-op");
}

#[test]
fn a_truncated_buffer_states_no_length() {
    let (tx, _rx) = tokio::sync::mpsc::channel(4);
    let mut ctx: Context<u32> = Context::new(request(), tx, false);
    ctx.write_output(418, b"par");
    assert!(ctx.is_truncated(true));
    let t = ctx.finalize_response(true);
    let out = ctx.finish(t).expect("sealed");
    assert_eq!(views(&out.frames), ["head 418 None false false", "chunk 3", "end true"]);
}

#[test]
fn a_failure_without_a_head_becomes_a_500() {
    let (tx, _rx) = tokio::sync::mpsc::channel(4);
    let mut ctx: Context<u32> = Context::new(request(), tx, false);
    let t = ctx.finalize_response(true);
    assert!(!t);
    let out = ctx.finish(t).expect("sealed");
    assert_eq!(views(&out.frames), ["head 500 Some(0) false false", "end false"]);
}

#[test]
fn a_bodiless_status_keeps_its_bytes_but_states_no_length() {
    let (tx, _rx) = tokio::sync::mpsc::channel(4);
    let mut ctx: Context<u32> = Context::new(request(), tx, false);
    ctx.commit_head(304, Vec::new());
    ctx.write_output(200, b"gone");
    let out = ctx.finish(false).expect("sealed");
    assert_eq!(views(&out.frames), ["head 304 None true false", "chunk 4", "end false"]);
}

#[test]
fn header_lines_split_at_the_first_colon() {
    assert_eq!(name_value(b"X-A:  1 \t"), Some(("X-A".to_string(), b"1".to_vec())));
    assert_eq!(name_value(b" Link : a:b"), Some(("Link".to_string(), b"a:b".to_vec())));
    assert_eq!(name_value(b"no colon"), None);
    assert_eq!(name_value(b"  : x"), None);
    assert_eq!(name_value(b""), None);
    let raw = vec![b"A: 1".to_vec(), b"junk".to_vec(), b"B:2".to_vec()];
    assert_eq!(header_lines(&raw), hdrs(&[("A", "1"), ("B", "2")]));
}

#[test]
fn recorded_headers_become_the_head_once() {
    let mut ctx = context();
    send_headers(&mut ctx, 0, &vec![b"Status: 404".to_vec(), b"X-A: 1".to_vec()]);
    send_headers(&mut ctx, 500, &Vec::new());
    let head = ctx.head.expect("recorded");
    assert_eq!(head.status, 404);
    assert_eq!(head.headers, hdrs(&[("X-A", "1")]));
    assert_eq!(response_status(0), 200);
    assert_eq!(response_status(503), 503);
}

#[test]
fn protocols_have_their_engine_numbers() {
    assert_eq!(proto_num("HTTP/1.0"), 1000);
    assert_eq!(proto_num("HTTP/1.1"), 1001);
    assert_eq!(proto_num("HTTP/2.0"), 2000);
    assert_eq!(proto_num("HTTP/3.0"), 3000);
    assert_eq!(proto_num("gopher"), 1001);
}

#[test]
fn a_body_is_read_piece_by_piece() {
    let mut body = Body::Raw { data: b"abcdef".to_vec(), pos: 0 };
    assert_eq!(read_post(&mut body, 4), b"abcd");
    assert_eq!(read_post(&mut body, 4), b"ef");
    assert!(read_post(&mut body, 4).is_empty());
    assert!(read_post(&mut Body::Unreadable, 4).is_empty());
}

#[test]
fn the_cgi_view_folds_and_degrades() {
    let mut r = request();
    r.method = "GET".to_string();
    r.query = "a\0b".to_string();
    r.script_filename = b"/srv/\xff.php".to_vec();
    r.headers = hdrs(&[
        ("Cookie", "a=1"),
        ("cookie", "b=2"),
        ("Authorization", "Basic x"),
        ("authorization", "Basic y"),
    ]);
    r.content_type = Some(b"text/plain".to_vec());
    r.server_vars = vec![
        ("K".to_string(), "1".to_string()),
        ("K".to_string(), "2".to_string()),
        ("N".to_string(), "\0".to_string()),
    ];
    r.remote = Addr::Unix(None);
    let c = ReqC::build(&r);
    assert_eq!(c.method, b"GET");
    assert!(c.query.is_empty(), "a NUL byte cannot cross");
    assert_eq!(c.script, "/srv/\u{fffd}.php".as_bytes());
    assert_eq!(c.cookie.as_deref(), Some(&b"a=1; b=2"[..]));
    assert_eq!(c.authorization.as_deref(), Some(&b"Basic x"[..]));
    assert_eq!(c.getenv(b"K").map(|v| v.as_slice()), Some(&b"2"[..]));
    assert!(c.getenv(b"N").is_none());
    assert_eq!((c.remote_addr.as_str(), c.remote_port.as_str()), ("", "0"));
    assert_eq!(c.server_port, "8080");
}

#[test]
fn server_variables_are_registered_in_order() {
    let mut r = request();
    r.uri = "/a/b.php?x=1".to_string();
    r.method = "POST".to_string();
    r.script_name = "/index.php".to_string();
    r.protocol = "HTTP/1.1".to_string();
    r.headers = hdrs(&[("X-Trace-Id", "t"), ("Authorization", " Bearer abc")]);
    r.content_length = 12;
    r.server_vars = vec![("APP_ENV".to_string(), "prod".to_string())];
    let c = ReqC::build(&r);
    let vars = register_server_variables(&r, &c, Some(b"bob"));
    let get = |name: &str| {
        vars.iter()
            .find(|(n, _)| n == name)
            .map(|(_, v)| String::from_utf8_lossy(v).into_owned())
    };
    assert_eq!(get("DOCUMENT_URI").as_deref(), Some("/a/b.php"));
    assert_eq!(get("REQUEST_METHOD").as_deref(), Some("POST"));
    assert_eq!(get("REQUEST_SCHEME").as_deref(), Some("http"));
    assert_eq!(get("HTTPS").as_deref(), Some(""));
    assert_eq!(get("SERVER_SOFTWARE").as_deref(), Some("Rapira"));
    assert_eq!(get("AUTH_TYPE").as_deref(), Some("Bearer"));
    assert_eq!(get("REMOTE_USER").as_deref(), Some("bob"));
    assert_eq!(get("CONTENT_LENGTH").as_deref(), Some("12"));
    assert_eq!(get("CONTENT_TYPE"), None);
    assert_eq!(get("HTTP_X_TRACE_ID").as_deref(), Some("t"));
    assert_eq!(get("REMOTE_PORT").as_deref(), Some("8080"));
    assert_eq!(vars[0].0, "PHP_SELF");
    assert_eq!(vars[vars.len() - 1].0, "APP_ENV");
}
