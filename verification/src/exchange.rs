//! An exchange: the request as a script sees it, with the response side of the
//! unit beside it.

use vstd::prelude::*;
use crate::context::Context;
use crate::fields::{copy_bytes, copy_range, copy_text, lines};
use crate::grouped::{grouped, Grouped};
use crate::respond::{sound, PlanView, Respond, RespondView, Stage};
use crate::seqs::{lemma_take_all, lemma_take_push};
use crate::spool::{spool_paths, SpooledFile};
use crate::text::{chars_of, decimal, lossy, lossy_text, push_decimal, same_name};
use crate::types::{Addr, Body, FormField, Request, UploadedFile};

verus! {

/// A request on its way to a worker.
#[verifier::reject_recursive_types(F)]
pub struct Job<F> {
    pub ctx: Context<F>,
}

/// One endpoint as a script sees it.
pub enum AddrOwned {
    Inet { ip: String, port: u16 },
    /// `None` is an unnamed endpoint.
    Unix(Option<Vec<u8>>),
}

/// The content of an `AddrOwned`.
pub enum AddrView {
    Inet { ip: Seq<char>, port: u16 },
    Unix(Option<Seq<u8>>),
}

impl View for AddrOwned {
    type V = AddrView;

    open spec fn view(&self) -> AddrView {
        match *self {
            AddrOwned::Inet { ip, port } => AddrView::Inet { ip: ip@, port },
            AddrOwned::Unix(Some(p)) => AddrView::Unix(Some(p@)),
            AddrOwned::Unix(None) => AddrView::Unix(None),
        }
    }
}

/// An endpoint as a script sees it; an empty path is not a name.
pub open spec fn endpoint(a: Addr) -> AddrView {
    match a {
        Addr::Inet { ip, port, .. } => AddrView::Inet { ip: ip@, port },
        Addr::Unix(p) => match p {
            Some(p) if p@.len() > 0 => AddrView::Unix(Some(p@)),
            _ => AddrView::Unix(None),
        },
    }
}

impl AddrOwned {
    /// An endpoint as a script sees it.
    pub fn new(a: &Addr) -> (r: AddrOwned)
        ensures
            r@ == endpoint(*a),
    {
        match a {
            Addr::Inet { ip, v6: _, scope_id: _, port } => AddrOwned::Inet {
                ip: copy_text(ip.as_str()),
                port: *port,
            },
            Addr::Unix(p) => match p {
                Some(p) => {
                    if p.len() > 0 {
                        AddrOwned::Unix(Some(copy_bytes(p.as_slice())))
                    } else {
                        AddrOwned::Unix(None)
                    }
                },
                None => AddrOwned::Unix(None),
            },
        }
    }
}

/// A form field with its headers grouped.
pub struct FieldPart {
    pub field: FormField,
    pub headers: Grouped,
}

/// A file part with its headers grouped; the spool file itself belongs to the
/// unit.
pub struct FilePart {
    pub name: Vec<u8>,
    pub client_filename: Vec<u8>,
    pub client_media_type: Option<Vec<u8>>,
    pub size: u64,
    pub path: Vec<u8>,
    pub headers: Grouped,
}

/// The request body as the unit holds it.
pub enum BodyState {
    Raw(Vec<u8>),
    Multipart { fields: Vec<FieldPart>, files: Vec<FilePart> },
}

/// A form field is carried over whole.
pub open spec fn carries_field(p: FieldPart, f: FormField) -> bool {
    p.field == f && p.headers@ == grouped(lines(f.headers@))
}

/// A file part is carried over, its path rendered.
pub open spec fn carries_file(p: FilePart, f: UploadedFile) -> bool {
    &&& p.name == f.name
    &&& p.client_filename == f.client_filename
    &&& p.client_media_type == f.client_media_type
    &&& p.size == f.size
    &&& p.path@ == f.file.path@
    &&& p.headers@ == grouped(lines(f.headers@))
}

/// The body of a unit stands for the body of its request.
pub open spec fn carries_body(s: BodyState, b: Body) -> bool {
    match (s, b) {
        (BodyState::Raw(v), Body::Raw { data, pos }) => v@ == if pos <= data@.len() {
            data@.skip(pos as int)
        } else {
            Seq::empty()
        },
        (BodyState::Multipart { fields, files }, Body::Multipart(m)) => {
            &&& fields@.len() == m.fields@.len()
            &&& forall|i: int|
                0 <= i < fields@.len() ==> carries_field(#[trigger] fields@[i], m.fields@[i])
            &&& files@.len() == m.files@.len()
            &&& forall|i: int|
                0 <= i < files@.len() ==> carries_file(#[trigger] files@[i], m.files@[i])
        },
        _ => false,
    }
}

/// The paths of the files spooled for a body.
pub open spec fn body_spools(b: Body) -> Seq<Seq<u8>> {
    match b {
        Body::Multipart(m) => m.files@.map_values(|f: UploadedFile| f.file.path@),
        _ => Seq::empty(),
    }
}

fn hold_fields(fields: Vec<FormField>) -> (r: Vec<FieldPart>)
    ensures
        r@.len() == fields@.len(),
        forall|i: int| 0 <= i < r@.len() ==> carries_field(#[trigger] r@[i], fields@[i]),
{
    let ghost all = fields@;
    let mut r: Vec<FieldPart> = Vec::new();
    for f in it: fields
        invariant
            all == it.seq(),
            r@.len() == it.index(),
            forall|i: int| 0 <= i < r@.len() ==> carries_field(#[trigger] r@[i], all[i]),
    {
        let headers = Grouped::new(f.headers.as_slice());
        r.push(FieldPart { field: f, headers });
    }
    r
}

fn hold_files(files: Vec<UploadedFile>) -> (r: (Vec<FilePart>, Vec<SpooledFile>))
    ensures
        r.0@.len() == files@.len(),
        forall|i: int| 0 <= i < r.0@.len() ==> carries_file(#[trigger] r.0@[i], files@[i]),
        spool_paths(r.1@) == files@.map_values(|f: UploadedFile| f.file.path@),
{
    let ghost all = files@;
    let ghost places = all.map_values(|f: UploadedFile| f.file.path@);
    let mut parts: Vec<FilePart> = Vec::new();
    let mut spools: Vec<SpooledFile> = Vec::new();
    assert(spool_paths(spools@) =~= places.take(0));
    for f in it: files
        invariant
            all == it.seq(),
            places == all.map_values(|f: UploadedFile| f.file.path@),
            parts@.len() == it.index(),
            forall|i: int| 0 <= i < parts@.len() ==> carries_file(#[trigger] parts@[i], all[i]),
            spool_paths(spools@) == places.take(it.index() as int),
    {
        let ghost before = spools@;
        let ghost place = f.file.path@;
        let path = copy_bytes(f.file.path.as_slice());
        let headers = Grouped::new(f.headers.as_slice());
        parts.push(
            FilePart {
                name: f.name,
                client_filename: f.client_filename,
                client_media_type: f.client_media_type,
                size: f.size,
                path,
                headers,
            },
        );
        spools.push(f.file);
        proof {
            lemma_take_push(places, it.index() as int);
            assert(spool_paths(spools@) =~= spool_paths(before).push(place));
        }
    }
    proof {
        lemma_take_all(places);
    }
    (parts, spools)
}

/// A socket address in text: IPv6 stands in brackets, with its scope if it has
/// one.
pub open spec fn socket_text(a: Addr) -> Seq<char> {
    match a {
        Addr::Inet { ip, v6, scope_id, port } => if !v6 {
            ip@ + ":"@ + decimal(port as nat)
        } else if scope_id == 0 {
            "["@ + ip@ + "]:"@ + decimal(port as nat)
        } else {
            "["@ + ip@ + "%"@ + decimal(scope_id as nat) + "]:"@ + decimal(port as nat)
        },
        Addr::Unix(_) => Seq::empty(),
    }
}

/// The host part of the absolute URI: what the client named, else the listener
/// address, else the configured name for a unix listener.
pub open spec fn host_text(r: Request) -> Seq<char> {
    match r.authority {
        Some(a) => lossy(a@),
        None => match r.server {
            Addr::Inet { .. } => socket_text(r.server),
            Addr::Unix(_) => r.server_name@ + ":"@ + decimal(r.server_port as nat),
        },
    }
}

/// The absolute URI of a request. A target that is not a path (asterisk and
/// authority forms) falls back to the root.
pub open spec fn absolute_uri(r: Request) -> Seq<char> {
    (if r.https {
        "https://"@
    } else {
        "http://"@
    }) + host_text(r) + (if r.uri@.len() > 0 && r.uri@[0] == '/' {
        r.uri@
    } else {
        "/"@
    })
}

/// The request-target bytes: as received, else the URI's own.
pub open spec fn target_bytes(r: Request) -> Seq<u8> {
    match r.target {
        Some(t) => t@,
        None => vstd::utf8::encode_utf8(r.uri@),
    }
}

/// The contract spelling of a protocol.
pub open spec fn protocol_text(p: Seq<char>) -> Seq<char> {
    if p == "HTTP/2.0"@ {
        "HTTP/2"@
    } else if p == "HTTP/3.0"@ {
        "HTTP/3"@
    } else {
        p
    }
}

fn push_socket(out: &mut String, a: &Addr)
    ensures
        final(out)@ == old(out)@ + socket_text(*a),
{
    match a {
        Addr::Inet { ip, v6, scope_id, port } => {
            if !*v6 {
                out.push_str(ip.as_str());
                out.push_str(":");
            } else {
                out.push_str("[");
                out.push_str(ip.as_str());
                if *scope_id != 0 {
                    out.push_str("%");
                    push_decimal(out, *scope_id as u64);
                }
                out.push_str("]:");
            }
            push_decimal(out, *port as u64);
        },
        Addr::Unix(_) => {},
    }
    assert(out@ =~= old(out)@ + socket_text(*a));
}

/// The absolute URI of a request.
pub fn uri_of(r: &Request) -> (s: String)
    ensures
        s@ == absolute_uri(*r),
{
    let mut s: String = if r.https {
        copy_text("https://")
    } else {
        copy_text("http://")
    };
    let ghost scheme = s@;
    match &r.authority {
        Some(a) => {
            let host = lossy_text(a.as_slice());
            s.push_str(host.as_str());
        },
        None => {
            let inet = match &r.server {
                Addr::Inet { .. } => true,
                Addr::Unix(_) => false,
            };
            if inet {
                push_socket(&mut s, &r.server);
            } else {
                s.push_str(r.server_name.as_str());
                s.push_str(":");
                push_decimal(&mut s, r.server_port as u64);
            }
        },
    }
    assert(s@ =~= scheme + host_text(*r));
    let chars = chars_of(r.uri.as_str());
    if chars.len() > 0 && chars[0] == '/' {
        s.push_str(r.uri.as_str());
    } else {
        s.push_str("/");
    }
    s
}

fn protocol_of(p: &String) -> (r: String)
    ensures
        r@ == protocol_text(p@),
{
    if crate::text::same_text(p.as_str(), "HTTP/2.0") {
        copy_text("HTTP/2")
    } else if crate::text::same_text(p.as_str(), "HTTP/3.0") {
        copy_text("HTTP/3")
    } else {
        copy_text(p.as_str())
    }
}

/// A unit of work: the request a script handles, and its response.
#[verifier::reject_recursive_types(F)]
pub struct ExchangeState<F> {
    pub body: BodyState,
    /// The request, its body taken out.
    pub req: Request,
    pub headers: Grouped,
    pub uri_abs: String,
    pub target: Vec<u8>,
    pub authority: Option<Vec<u8>>,
    pub protocol_php: String,
    pub remote: AddrOwned,
    pub server: AddrOwned,
    pub resp: Respond<F>,
}

/// A request with its body taken out.
pub open spec fn without_body(r: Request, after: Request) -> bool {
    &&& after.method == r.method
    &&& after.uri == r.uri
    &&& after.target == r.target
    &&& after.authority == r.authority
    &&& after.https == r.https
    &&& after.query == r.query
    &&& after.protocol == r.protocol
    &&& after.remote == r.remote
    &&& after.server == r.server
    &&& after.server_name == r.server_name
    &&& after.server_port == r.server_port
    &&& after.script_name == r.script_name
    &&& after.document_root == r.document_root
    &&& after.script_filename == r.script_filename
    &&& after.headers == r.headers
    &&& after.server_vars == r.server_vars
    &&& after.content_type == r.content_type
    &&& after.content_length == r.content_length
    &&& after.received_at == r.received_at
    &&& after.tls == r.tls
    &&& after.body matches Body::Raw { data, pos } && data@.len() == 0 && pos == 0
}

impl<F> ExchangeState<F> {
    /// This unit was opened for that request, with that sender.
    pub open spec fn opened_for(&self, r: Request, open: bool) -> bool {
        &&& without_body(r, self.req)
        &&& carries_body(self.body, r.body)
        &&& self.headers@ == grouped(lines(r.headers@))
        &&& self.uri_abs@ == absolute_uri(r)
        &&& self.target@ == target_bytes(r)
        &&& match (self.authority, r.authority) {
            (Some(a), Some(b)) => a@ == b@,
            (None, None) => true,
            _ => false,
        }
        &&& self.protocol_php@ == protocol_text(r.protocol@)
        &&& self.remote@ == endpoint(r.remote)
        &&& self.server@ == endpoint(r.server)
        &&& self.resp@ == (RespondView::<F> {
            stage: Stage::Open,
            head_sent: false,
            pending: None,
            declared_cl: None,
            sent_body: 0,
            discarded: false,
            bodiless: same_name(r.method@, "HEAD"@),
            spools: body_spools(r.body),
            open,
            outbox: Seq::empty(),
            plan: PlanView::Rest,
            sent: Seq::empty(),
            offers: Seq::empty(),
            probes: Seq::empty(),
        })
    }

    /// Opens a unit for a job. A body that could not be read hands the job back
    /// with its sender; the caller fails the unit.
    pub fn new(job: Job<F>) -> (r: Result<ExchangeState<F>, Job<F>>)
        ensures
            r is Err <==> job.ctx.req.body is Unreadable,
            r matches Ok(st) ==> {
                &&& st.opened_for(job.ctx.req, job.ctx.sender is Some)
                &&& st.resp.sender == job.ctx.sender
                &&& job.ctx.sender is Some ==> sound(st.resp@)
            },
            r matches Err(back) ==> {
                &&& without_body(job.ctx.req, back.ctx.req)
                &&& back.ctx.c == job.ctx.c
                &&& back.ctx.sender == job.ctx.sender
                &&& back.ctx.head == job.ctx.head
                &&& back.ctx.body == job.ctx.body
                &&& back.ctx.stream == job.ctx.stream
                &&& back.ctx.tearing_down == job.ctx.tearing_down
            },
    {
        let mut job: Job<F> = job;
        let ghost whole = job.ctx.req;
        let mut taken: Body = Body::Raw { data: Vec::new(), pos: 0 };
        core::mem::swap(&mut taken, &mut job.ctx.req.body);
        let (body, spools): (BodyState, Vec<SpooledFile>) = match taken {
            Body::Unreadable => {
                return Err(job);
            },
            Body::Raw { data, pos } => {
                let rest: Vec<u8> = if pos <= data.len() {
                    let rest = copy_range(data.as_slice(), pos, data.len());
                    assert(rest@ =~= data@.skip(pos as int));
                    rest
                } else {
                    let rest: Vec<u8> = Vec::new();
                    assert(rest@ =~= Seq::<u8>::empty());
                    rest
                };
                let none: Vec<SpooledFile> = Vec::new();
                assert(spool_paths(none@) =~= Seq::<Seq<u8>>::empty());
                (BodyState::Raw(rest), none)
            },
            Body::Multipart(m) => {
                let fields = hold_fields(m.fields);
                let (files, spools): (Vec<FilePart>, Vec<SpooledFile>) = hold_files(m.files);
                (BodyState::Multipart { fields, files }, spools)
            },
        };
        assert(carries_body(body, whole.body));
        assert(spool_paths(spools@) == body_spools(whole.body));
        let sender = job.ctx.sender.take();
        let req = job.ctx.req;
        let headers = Grouped::new(req.headers.as_slice());
        let authority: Option<Vec<u8>> = match &req.authority {
            Some(a) => Some(copy_bytes(a.as_slice())),
            None => None,
        };
        let target: Vec<u8> = match &req.target {
            Some(t) => copy_bytes(t.as_slice()),
            None => copy_bytes(req.uri.as_str().as_bytes()),
        };
        let protocol_php = protocol_of(&req.protocol);
        let remote = AddrOwned::new(&req.remote);
        let server = AddrOwned::new(&req.server);
        let uri_abs = uri_of(&req);
        let bodiless = req.method.as_str().eq_ignore_ascii_case("HEAD");
        let resp = Respond::new(sender, bodiless, spools);
        Ok(
            ExchangeState {
                body,
                req,
                headers,
                uri_abs,
                target,
                authority,
                protocol_php,
                remote,
                server,
                resp,
            },
        )
    }
}

} // verus!
