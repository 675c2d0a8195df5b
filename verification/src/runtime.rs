//! The backend between a front and the worker pool: the one mapping from a
//! front's request to a worker's, and the extensions' lifecycle.

use vstd::prelude::*;
use crate::cgi::{find_line, first_value, opt_bytes};
use crate::fields::{copy_bytes, copy_text, line, lines, FieldLines};
use crate::front::FrontRequest;
use crate::reply::ExecFault;
use crate::seqs::{lemma_take_all, lemma_take_push};
use crate::text::{
    chars_of, lossy, lossy_text, same_name, same_text, signed, signed_count,
};
use crate::types::{Body, MultipartBody, Request};
use crate::wire::texts;

verus! {

/// Limits of an upload.
pub struct UploadLimits {
    pub dir: Vec<u8>,
    pub max_file_size: u64,
    pub max_field_size: u64,
    pub max_files: usize,
    pub max_parts: usize,
    pub max_part_headers: usize,
}

/// The backend's options.
pub struct RuntimeOptions {
    /// Per-extension graceful-shutdown budget, in seconds.
    pub grace_secs: u64,
    /// Upload limits for bodies the host parses itself.
    pub uploads: UploadLimits,
}

impl RuntimeOptions {
    /// Options with the usual shutdown budget.
    pub fn with_uploads(uploads: UploadLimits) -> (r: RuntimeOptions)
        ensures
            r.grace_secs == 30,
            r.uploads == uploads,
    {
        RuntimeOptions { grace_secs: 30, uploads }
    }
}

/// What every request of a pool says about its script.
pub struct ScriptVars {
    pub script_name: String,
    pub document_root: String,
    pub script_filename: Vec<u8>,
}

/// The text after the first question mark; nothing where there is none.
pub open spec fn query_of(uri: Seq<char>) -> Seq<char>
    decreases uri.len(),
{
    if uri.len() == 0 {
        Seq::empty()
    } else if uri[0] == '?' {
        uri.drop_first()
    } else {
        query_of(uri.drop_first())
    }
}

fn query_text(uri: &str) -> (r: String)
    ensures
        r@ == query_of(uri@),
{
    let chars = chars_of(uri);
    let mut i: usize = 0;
    assert(chars@.skip(0) =~= chars@);
    while i < chars.len() && chars[i] != '?'
        invariant
            i <= chars@.len(),
            query_of(uri@) == query_of(chars@.skip(i as int)),
        decreases chars@.len() - i,
    {
        assert(chars@.skip(i as int).drop_first() =~= chars@.skip(i + 1));
        i = i + 1;
    }
    let ghost rest = chars@.skip(i as int);
    let mut r = String::new();
    if i < chars.len() {
        assert(rest.drop_first() =~= chars@.skip(i + 1));
        let from: usize = i + 1;
        assert(r@ =~= chars@.subrange(from as int, from as int));
        for k in from..chars.len()
            invariant
                from <= chars@.len(),
                r@ == chars@.subrange(from as int, k as int),
        {
            r.push(chars[k]);
            assert(r@ =~= chars@.subrange(from as int, k as int + 1));
        }
        assert(r@ =~= chars@.skip(i + 1));
    } else {
        assert(rest =~= Seq::empty());
        assert(r@ =~= Seq::<char>::empty());
    }
    r
}

/// How a request's body travels.
#[derive(Clone, Copy, Debug, PartialEq, Eq, Structural)]
pub enum BodyPlan {
    /// As it came.
    Raw,
    /// The host parses it before the request is queued.
    Parse,
    /// Repeated content types with a multipart one among them: two readers could
    /// cut the body at different boundaries.
    Reject,
}

/// A byte with ASCII letters in lower case.
pub open spec fn lower_byte(b: u8) -> u8 {
    if 0x41 <= b <= 0x5a {
        (b + 32) as u8
    } else {
        b
    }
}

/// A content type whose top-level type is multipart, in whatever case.
pub open spec fn multipart_value(v: Seq<u8>) -> bool {
    &&& v.len() >= 10
    &&& v.take(10).map_values(|b: u8| lower_byte(b)) == seq![
        0x6du8, 0x75, 0x6c, 0x74, 0x69, 0x70, 0x61, 0x72, 0x74, 0x2f,
    ]
}

fn is_multipart(v: &[u8]) -> (r: bool)
    ensures
        r == multipart_value(v@),
{
    let want: [u8; 10] = [0x6d, 0x75, 0x6c, 0x74, 0x69, 0x70, 0x61, 0x72, 0x74, 0x2f];
    if v.len() < 10 {
        return false;
    }
    let ghost low = v@.take(10).map_values(|b: u8| lower_byte(b));
    for i in 0..10
        invariant
            v@.len() >= 10,
            want@ == seq![0x6du8, 0x75, 0x6c, 0x74, 0x69, 0x70, 0x61, 0x72, 0x74, 0x2f],
            low == v@.take(10).map_values(|b: u8| lower_byte(b)),
            forall|k: int| 0 <= k < i ==> low[k] == #[trigger] want@[k],
    {
        let b: u8 = v[i];
        let l: u8 = if 0x41 <= b && b <= 0x5a {
            b + 32
        } else {
            b
        };
        assert(low[i as int] == l);
        if l != want[i] {
            return false;
        }
    }
    assert(low =~= want@);
    true
}

/// Which field lines of a request hold a multipart value.
pub fn multipart_lines(headers: &FieldLines) -> (r: Vec<bool>)
    ensures
        r@.len() == headers@.len(),
        forall|i: int|
            0 <= i < r@.len() ==> #[trigger] r@[i] == multipart_value(lines(headers@)[i].1),
{
    let mut r: Vec<bool> = Vec::new();
    for i in 0..headers.len()
        invariant
            r@.len() == i,
            forall|k: int|
                0 <= k < i ==> #[trigger] r@[k] == multipart_value(lines(headers@)[k].1),
    {
        assert(lines(headers@)[i as int] == line(headers@[i as int]));
        r.push(is_multipart(headers[i].1.as_slice()));
    }
    r
}

/// A content-type line of a request, with what the host's multipart reader says
/// of its value.
pub open spec fn type_line(l: (Seq<char>, Seq<u8>)) -> bool {
    same_name(l.0, "content-type"@)
}

/// How many lines of a request are content types.
pub open spec fn type_lines(h: Seq<(Seq<char>, Seq<u8>)>) -> nat
    decreases h.len(),
{
    if h.len() == 0 {
        0
    } else if type_line(h.last()) {
        type_lines(h.drop_last()) + 1
    } else {
        type_lines(h.drop_last())
    }
}

/// Whether any content-type line is multipart; `multipart[i]` says so of line
/// `i`.
pub open spec fn any_multipart(h: Seq<(Seq<char>, Seq<u8>)>, multipart: Seq<bool>) -> bool {
    exists|i: int| 0 <= i < h.len() && type_line(#[trigger] h[i]) && multipart[i]
}

/// The first content-type line is multipart.
pub open spec fn first_multipart(h: Seq<(Seq<char>, Seq<u8>)>, multipart: Seq<bool>) -> bool
    decreases h.len(),
{
    if h.len() == 0 {
        false
    } else if type_line(h[0]) {
        multipart[0]
    } else {
        first_multipart(h.drop_first(), multipart.drop_first())
    }
}

/// How a request's body travels: only a dispatcher's host parses multipart, and
/// an empty body is never parsed.
pub open spec fn body_plan(
    h: Seq<(Seq<char>, Seq<u8>)>,
    multipart: Seq<bool>,
    dispatcher: bool,
    empty: bool,
) -> BodyPlan {
    if !dispatcher || empty {
        BodyPlan::Raw
    } else if type_lines(h) > 1 && any_multipart(h, multipart) {
        BodyPlan::Reject
    } else if first_multipart(h, multipart) {
        BodyPlan::Parse
    } else {
        BodyPlan::Raw
    }
}

/// Decides how a request's body travels. `multipart[i]` says whether the value
/// of field line `i` is a multipart content type.
pub fn plan_body(req: &FrontRequest, multipart: &Vec<bool>, dispatcher: bool) -> (r: BodyPlan)
    requires
        multipart@.len() == req.headers@.len(),
    ensures
        r == body_plan(lines(req.headers@), multipart@, dispatcher, req.body@.len() == 0),
{
    if !dispatcher || req.body.len() == 0 {
        return BodyPlan::Raw;
    }
    let ghost all = lines(req.headers@);
    let mut count: usize = 0;
    let mut any = false;
    let mut first: Option<bool> = None;
    assert(all.skip(0) =~= all);
    assert(multipart@.skip(0) =~= multipart@);
    for i in 0..req.headers.len()
        invariant
            all == lines(req.headers@),
            multipart@.len() == all.len(),
            count == type_lines(all.take(i as int)),
            count <= i,
            any == exists|k: int| 0 <= k < i && type_line(#[trigger] all[k]) && multipart@[k],
            match first {
                Some(m) => first_multipart(all, multipart@) == m,
                None => first_multipart(all, multipart@) == first_multipart(
                    all.skip(i as int),
                    multipart@.skip(i as int),
                ),
            },
    {
        proof {
            lemma_take_push(all, i as int);
            assert(all.take(i + 1).drop_last() =~= all.take(i as int));
            assert(all[i as int] == line(req.headers@[i as int]));
            assert(all.skip(i as int).drop_first() =~= all.skip(i + 1));
            assert(multipart@.skip(i as int).drop_first() =~= multipart@.skip(i + 1));
        }
        if req.headers[i].0.as_str().eq_ignore_ascii_case("content-type") {
            assert(type_line(all[i as int]));
            count = count + 1;
            if multipart[i] {
                any = true;
            }
            if first.is_none() {
                first = Some(multipart[i]);
            }
        }
    }
    proof {
        lemma_take_all(all);
        assert(all.skip(all.len() as int) =~= Seq::empty());
    }
    if count > 1 && any {
        return BodyPlan::Reject;
    }
    match first {
        Some(true) => BodyPlan::Parse,
        _ => BodyPlan::Raw,
    }
}

/// A value where it is not empty: empty means that none was named.
pub open spec fn unless_empty(v: Option<Vec<u8>>) -> Option<Vec<u8>> {
    match v {
        Some(b) => if b@.len() > 0 {
            Some(b)
        } else {
            None
        },
        None => None,
    }
}

fn filter_empty(v: Option<Vec<u8>>) -> (r: Option<Vec<u8>>)
    ensures
        r == unless_empty(v),
{
    match v {
        Some(b) => {
            if b.len() > 0 {
                Some(b)
            } else {
                None
            }
        },
        None => None,
    }
}

/// A worker's request stands for a front's.
pub open spec fn maps_request(
    r: Request,
    f: FrontRequest,
    script: ScriptVars,
    parsed: Option<MultipartBody>,
) -> bool {
    &&& r.method == f.method
    &&& r.uri == f.uri
    &&& r.https == f.https
    &&& r.query@ == query_of(f.uri@)
    &&& r.protocol == f.protocol
    &&& r.target == unless_empty(f.target)
    &&& r.authority == unless_empty(f.authority)
    &&& r.remote == f.remote
    &&& r.server == f.server
    &&& r.server_name == f.server_name
    &&& r.server_port == f.server_port
    &&& r.script_name@ == script.script_name@
    &&& r.document_root@ == script.document_root@
    &&& r.script_filename@ == script.script_filename@
    &&& r.headers == f.headers
    &&& r.server_vars@.len() == 0
    &&& opt_bytes(r.content_type) == first_value(lines(f.headers@), "content-type"@)
    // the wire's byte count, whatever the body was parsed into
    &&& r.content_length == signed(f.body@.len() as u64)
    &&& r.received_at == f.received_at
    &&& r.tls == f.tls
    &&& match parsed {
        Some(m) => r.body == Body::Multipart(m),
        None => r.body == (Body::Raw { data: f.body, pos: 0 }),
    }
}

/// What `to_request` gives, for what came of parsing the body where it is to be
/// parsed.
pub open spec fn request_mapped(
    r: Result<Request, ExecFault>,
    f: FrontRequest,
    script: ScriptVars,
    multipart: Seq<bool>,
    dispatcher: bool,
    parsed: Option<Result<MultipartBody, ParseError>>,
) -> bool {
    match body_plan(lines(f.headers@), multipart, dispatcher, f.body@.len() == 0) {
        BodyPlan::Reject => r == Err::<Request, ExecFault>(ExecFault::Rejected(400)),
        BodyPlan::Raw => r matches Ok(q) && maps_request(q, f, script, None),
        BodyPlan::Parse => match parsed {
            Some(Ok(m)) => r matches Ok(q) && maps_request(q, f, script, Some(m)),
            Some(Err(e)) => r == Err::<Request, ExecFault>(parse_fault(e)),
            None => false,
        },
    }
}

/// The one mapping from a front's request to a worker's. `multipart[i]` says
/// whether the value of field line `i` is a multipart content type; `parsed` is
/// what came of parsing the body where `plan_body` asks for that. A refused
/// request is never queued.
pub fn to_request(
    f: FrontRequest,
    script: &ScriptVars,
    multipart: &Vec<bool>,
    dispatcher: bool,
    parsed: Option<Result<MultipartBody, ParseError>>,
) -> (r: Result<Request, ExecFault>)
    requires
        multipart@.len() == f.headers@.len(),
        body_plan(lines(f.headers@), multipart@, dispatcher, f.body@.len() == 0)
            == BodyPlan::Parse ==> parsed is Some,
    ensures
        request_mapped(r, f, *script, multipart@, dispatcher, parsed),
{
    match plan_body(&f, multipart, dispatcher) {
        BodyPlan::Reject => Err(ExecFault::Rejected(400)),
        BodyPlan::Raw => Ok(map_request(f, script, None)),
        BodyPlan::Parse => match parsed {
            Some(Ok(m)) => Ok(map_request(f, script, Some(m))),
            Some(Err(e)) => Err(parse_err(&e)),
            None => Ok(map_request(f, script, None)),
        },
    }
}

/// Which lines of a request hold a multipart value.
pub open spec fn multipart_flags(h: Seq<(Seq<char>, Seq<u8>)>) -> Seq<bool> {
    Seq::new(h.len(), |i: int| multipart_value(h[i].1))
}

/// How the body of a request travels, by its own content types.
pub fn plan_request(req: &FrontRequest, dispatcher: bool) -> (r: BodyPlan)
    ensures
        r == body_plan(
            lines(req.headers@),
            multipart_flags(lines(req.headers@)),
            dispatcher,
            req.body@.len() == 0,
        ),
{
    let multipart = multipart_lines(&req.headers);
    assert(multipart@ =~= multipart_flags(lines(req.headers@)));
    plan_body(req, &multipart, dispatcher)
}

/// A worker's request from a front's, by its own content types. `parsed` is what
/// came of parsing the body where `plan_request` asks for that. A dispatcher's
/// host refuses a body that repeated content types, a multipart one among them,
/// could cut at different boundaries.
pub fn request_of(
    req: FrontRequest,
    script: &ScriptVars,
    dispatcher: bool,
    parsed: Option<Result<MultipartBody, ParseError>>,
) -> (r: Result<Request, ExecFault>)
    requires
        body_plan(
            lines(req.headers@),
            multipart_flags(lines(req.headers@)),
            dispatcher,
            req.body@.len() == 0,
        ) == BodyPlan::Parse ==> parsed is Some,
    ensures
        request_mapped(
            r,
            req,
            *script,
            multipart_flags(lines(req.headers@)),
            dispatcher,
            parsed,
        ),
        dispatcher && req.body@.len() > 0 && type_lines(lines(req.headers@)) > 1 && (exists|i: int|
            0 <= i < req.headers@.len() && type_line(#[trigger] lines(req.headers@)[i])
                && multipart_value(lines(req.headers@)[i].1)) ==> r == Err::<Request, ExecFault>(
            ExecFault::Rejected(400),
        ),
{
    let multipart = multipart_lines(&req.headers);
    let ghost h = lines(req.headers@);
    assert(multipart@ =~= multipart_flags(h));
    proof {
        if exists|i: int|
            0 <= i < h.len() && type_line(#[trigger] h[i]) && multipart_value(h[i].1) {
            let i = choose|i: int|
                0 <= i < h.len() && type_line(#[trigger] h[i]) && multipart_value(h[i].1);
            assert(multipart_flags(h)[i]);
            assert(any_multipart(h, multipart_flags(h)));
        }
    }
    to_request(req, script, &multipart, dispatcher, parsed)
}

fn map_request(f: FrontRequest, script: &ScriptVars, parsed: Option<MultipartBody>) -> (r: Request)
    ensures
        maps_request(r, f, *script, parsed),
{
    let query = query_text(f.uri.as_str());
    let content_type: Option<Vec<u8>> = match find_line(f.headers.as_slice(), "content-type") {
        Some(i) => Some(copy_bytes(f.headers[i].1.as_slice())),
        None => None,
    };
    let content_length: i64 = signed_count(f.body.len() as u64);
    let body: Body = match parsed {
        Some(m) => Body::Multipart(m),
        None => Body::Raw { data: f.body, pos: 0 },
    };
    Request {
        method: f.method,
        uri: f.uri,
        target: filter_empty(f.target),
        authority: filter_empty(f.authority),
        https: f.https,
        query,
        protocol: f.protocol,
        remote: f.remote,
        server: f.server,
        server_name: f.server_name,
        server_port: f.server_port,
        script_name: copy_text(script.script_name.as_str()),
        document_root: copy_text(script.document_root.as_str()),
        script_filename: copy_bytes(script.script_filename.as_slice()),
        headers: f.headers,
        server_vars: Vec::new(),
        content_type,
        content_length,
        body,
        received_at: f.received_at,
        tls: f.tls,
    }
}

/// Why a multipart body was not taken in.
pub enum ParseError {
    /// The client's fault, with the status that answers it.
    Rejected { status: u16, reason: String },
    /// The host's own fault: the spool failed.
    Io,
}

/// What a front answers to a body that was not taken in: the client's fault
/// keeps its status, the host's is a host fault.
pub open spec fn parse_fault(e: ParseError) -> ExecFault {
    match e {
        ParseError::Rejected { status, .. } => ExecFault::Rejected(status),
        ParseError::Io => ExecFault::Host,
    }
}

/// What a front answers to a body that was not taken in.
pub fn parse_err(e: &ParseError) -> (r: ExecFault)
    ensures
        r == parse_fault(*e),
{
    match e {
        ParseError::Rejected { status, reason: _ } => ExecFault::Rejected(*status),
        ParseError::Io => ExecFault::Host,
    }
}

/// A request whose body could be cut at two boundaries is refused before it is
/// queued, whatever a reader made of it, and no other request is refused for
/// its fields.
pub proof fn ambiguous_bodies_are_refused(
    r: Result<Request, ExecFault>,
    f: FrontRequest,
    script: ScriptVars,
    multipart: Seq<bool>,
    dispatcher: bool,
    parsed: Option<Result<MultipartBody, ParseError>>,
)
    requires
        request_mapped(r, f, script, multipart, dispatcher, parsed),
    ensures
        dispatcher && f.body@.len() > 0 && type_lines(lines(f.headers@)) > 1 && any_multipart(
            lines(f.headers@),
            multipart,
        ) ==> r == Err::<Request, ExecFault>(ExecFault::Rejected(400)),
        !dispatcher || f.body@.len() == 0 ==> r is Ok,
{
}

/// The names of the extensions that are staged, in registration order; none
/// occurs twice.
pub struct Registry {
    pub names: Vec<String>,
}

impl Registry {
    /// No name occurs twice.
    pub open spec fn distinct(&self) -> bool {
        texts(self.names@).no_duplicates()
    }

    /// An empty registry.
    pub fn new() -> (r: Registry)
        ensures
            r.names@.len() == 0,
            r.distinct(),
    {
        Registry { names: Vec::new() }
    }

    /// Stages a name; a duplicate is refused and changes nothing.
    pub fn register(&mut self, name: String) -> (staged: bool)
        requires
            old(self).distinct(),
        ensures
            final(self).distinct(),
            staged == !texts(old(self).names@).contains(name@),
            staged ==> texts(final(self).names@) == texts(old(self).names@).push(name@),
            !staged ==> texts(final(self).names@) == texts(old(self).names@),
    {
        for i in 0..self.names.len()
            invariant
                *self == *old(self),
                old(self).distinct(),
                forall|k: int| 0 <= k < i ==> #[trigger] texts(self.names@)[k] != name@,
        {
            assert(texts(self.names@)[i as int] == self.names@[i as int]@);
            if same_text(self.names[i].as_str(), name.as_str()) {
                return false;
            }
        }
        let ghost before = self.names@;
        let ghost content = name@;
        self.names.push(name);
        assert(texts(self.names@) =~= texts(before).push(content));
        true
    }

    /// Whether nothing is staged.
    pub fn is_empty(&self) -> (r: bool)
        ensures
            r == (self.names@.len() == 0),
    {
        self.names.len() == 0
    }
}

/// How driving one extension ended.
#[derive(Clone, Copy, Debug, PartialEq, Eq, Structural)]
pub enum Driven {
    /// It ran to its end by itself; true when it failed.
    Finished(bool),
    /// It was asked to stop and drained; true when that failed.
    Stopped(bool),
    /// It was asked to stop and did not drain in time.
    TimedOut,
}

/// Why an extension counts as failed.
#[derive(Clone, Copy, Debug, PartialEq, Eq, Structural)]
pub enum DriveFault {
    RunFailed,
    ShutdownFailed,
    ShutdownTimedOut,
}

/// What driving one extension came to.
pub fn drive_outcome(d: Driven) -> (r: Result<(), DriveFault>)
    ensures
        r == (match d {
            Driven::Finished(false) => Ok::<(), DriveFault>(()),
            Driven::Stopped(false) => Ok(()),
            Driven::Finished(true) => Err(DriveFault::RunFailed),
            Driven::Stopped(true) => Err(DriveFault::ShutdownFailed),
            Driven::TimedOut => Err(DriveFault::ShutdownTimedOut),
        }),
{
    match d {
        Driven::Finished(failed) => {
            if failed {
                Err(DriveFault::RunFailed)
            } else {
                Ok(())
            }
        },
        Driven::Stopped(failed) => {
            if failed {
                Err(DriveFault::ShutdownFailed)
            } else {
                Ok(())
            }
        },
        Driven::TimedOut => Err(DriveFault::ShutdownTimedOut),
    }
}

/// What a failed accept means for the accept loop.
#[derive(Clone, Copy, Debug, PartialEq, Eq, Structural)]
pub enum AcceptStep {
    /// The listener is unusable: stop.
    Stop,
    /// This connection only: go on at once.
    Skip,
    /// Short of something: pause before the next accept.
    Pause,
}

/// What a failed accept means; `fatal` is an unusable listener, `transient` a
/// connection that went away or an interrupted call.
pub fn accept_step(fatal: bool, transient: bool) -> (r: AcceptStep)
    ensures
        r == (if fatal {
            AcceptStep::Stop
        } else if transient {
            AcceptStep::Skip
        } else {
            AcceptStep::Pause
        }),
{
    if fatal {
        AcceptStep::Stop
    } else if transient {
        AcceptStep::Skip
    } else {
        AcceptStep::Pause
    }
}

/// How a front's drain ended.
#[derive(Clone, Copy, Debug, PartialEq, Eq, Structural)]
pub enum DrainEnd {
    Clean,
    /// The listener had failed.
    ListenerFailed,
    /// So many requests were cut short.
    Stranded(usize),
}

/// Whether a drain goes on waiting.
pub fn drain_waits(inflight: usize, past_deadline: bool) -> (r: bool)
    ensures
        r == (inflight > 0 && !past_deadline),
{
    inflight > 0 && !past_deadline
}

/// How a front's drain ended; a failed listener is reported before stranded
/// requests.
pub fn drain_end(listener_failed: bool, stranded: usize) -> (r: DrainEnd)
    ensures
        r == (if listener_failed {
            DrainEnd::ListenerFailed
        } else if stranded > 0 {
            DrainEnd::Stranded(stranded)
        } else {
            DrainEnd::Clean
        }),
{
    if listener_failed {
        DrainEnd::ListenerFailed
    } else if stranded > 0 {
        DrainEnd::Stranded(stranded)
    } else {
        DrainEnd::Clean
    }
}

/// What every request of a pool says about its script, from the parts of the
/// script's path: the directory is the document root, and the file's name
/// follows a slash.
pub fn script_vars(
    filename: Vec<u8>,
    parent: Option<Vec<u8>>,
    file_name: Option<Vec<u8>>,
) -> (r: ScriptVars)
    ensures
        r.script_filename == filename,
        r.document_root@ == (match parent {
            Some(p) => lossy(p@),
            None => Seq::empty(),
        }),
        r.script_name@ == "/"@ + (match file_name {
            Some(f) => lossy(f@),
            None => Seq::empty(),
        }),
{
    let document_root: String = match parent {
        Some(p) => lossy_text(p.as_slice()),
        None => {
            let s = String::new();
            assert(s@ =~= Seq::<char>::empty());
            s
        },
    };
    let mut script_name = copy_text("/");
    if let Some(f) = file_name {
        let text = lossy_text(f.as_slice());
        script_name.push_str(text.as_str());
    } else {
        assert(script_name@ =~= "/"@ + Seq::<char>::empty());
    }
    ScriptVars { script_name, document_root, script_filename: filename }
}

} // verus!
