//! The request object graph that a script gets: plain values, ready to be
//! written into the engine's objects property by property.

use vstd::prelude::*;
use vstd::utf8::encode_utf8;
use crate::exchange::{AddrOwned, AddrView, BodyState, ExchangeState, FieldPart, FilePart};
use crate::fields::copy_bytes;
use crate::grouped::{groups, Grouped};
use crate::seqs::{lemma_take_all, lemma_take_push};
use crate::spool::paths;
use crate::text::{signed, signed_count};
use crate::types::TlsView;

verus! {

/// An address object.
pub enum AddressObject {
    Inet { ip: Vec<u8>, port: i64 },
    Unix { path: Option<Vec<u8>> },
}

/// A TLS object. Without a client certificate all three certificate properties
/// are null.
pub struct TlsObject {
    pub version: Vec<u8>,
    pub cipher: Vec<u8>,
    pub negotiated_protocol: Option<Vec<u8>>,
    pub requested_server_name: Option<Vec<u8>>,
    pub cert_serial: Option<Vec<u8>>,
    pub cert_organization: Option<Vec<u8>>,
    pub cert_fingerprint: Option<Vec<u8>>,
}

/// A form-field object.
pub struct FieldObject {
    pub name: Vec<u8>,
    pub value: Vec<u8>,
    pub headers: Grouped,
}

/// An uploaded-file object.
pub struct FileObject {
    pub name: Vec<u8>,
    pub client_filename: Vec<u8>,
    pub client_media_type: Option<Vec<u8>>,
    pub headers: Grouped,
    pub tmp_path: Vec<u8>,
    /// The size as the engine's signed integer.
    pub size: i64,
}

/// The body property: a string or a multipart object.
pub enum BodyObject {
    Text(Vec<u8>),
    Multipart { fields: Vec<FieldObject>, files: Vec<FileObject> },
}

/// The request object.
pub struct RequestObject {
    pub method: Vec<u8>,
    pub uri: Vec<u8>,
    pub target: Vec<u8>,
    pub authority: Option<Vec<u8>>,
    pub protocol: Vec<u8>,
    pub headers: Grouped,
    pub body: BodyObject,
    pub remote: AddressObject,
    pub server: AddressObject,
    pub tls: Option<TlsObject>,
    /// Unix seconds as the bits of a double; 0 where none was stamped.
    pub received_at: u64,
}

/// The content of an optional byte string.
pub open spec fn nullable(v: Option<Vec<u8>>) -> Option<Seq<u8>> {
    match v {
        Some(b) => Some(b@),
        None => None,
    }
}

/// The bytes of an optional text.
pub open spec fn text_or_null(v: Option<String>) -> Option<Seq<u8>> {
    match v {
        Some(s) => Some(encode_utf8(s@)),
        None => None,
    }
}

/// An address object shows an endpoint.
pub open spec fn shows_address(o: AddressObject, a: AddrView) -> bool {
    match (o, a) {
        (AddressObject::Inet { ip, port }, AddrView::Inet { ip: text, port: number }) => ip@
            == encode_utf8(text) && port == number,
        (AddressObject::Unix { path }, AddrView::Unix(p)) => nullable(path) == p,
        _ => false,
    }
}

/// A TLS object shows a session.
pub open spec fn shows_tls(o: TlsObject, t: TlsView) -> bool {
    &&& o.version@ == encode_utf8(t.version@)
    &&& o.cipher@ == encode_utf8(t.cipher@)
    &&& nullable(o.negotiated_protocol) == text_or_null(t.alpn)
    &&& nullable(o.requested_server_name) == text_or_null(t.server_name)
    &&& match t.cert {
        Some(c) => {
            &&& nullable(o.cert_serial) == Some(encode_utf8(c.serial@))
            &&& nullable(o.cert_organization) == text_or_null(c.organization)
            &&& nullable(o.cert_fingerprint) == Some(encode_utf8(c.fingerprint@))
        },
        None => o.cert_serial is None && o.cert_organization is None && o.cert_fingerprint is None,
    }
}

/// A form-field object shows a part.
pub open spec fn shows_field(o: FieldObject, p: FieldPart) -> bool {
    o.name@ == p.field.name@ && o.value@ == p.field.value@ && o.headers@ == p.headers@
}

/// An uploaded-file object shows a part.
pub open spec fn shows_file(o: FileObject, p: FilePart) -> bool {
    &&& o.name@ == p.name@
    &&& o.client_filename@ == p.client_filename@
    &&& nullable(o.client_media_type) == nullable(p.client_media_type)
    &&& o.headers@ == p.headers@
    &&& o.tmp_path@ == p.path@
    &&& o.size == signed(p.size)
}

/// A body property shows a unit's body: every part, in order.
pub open spec fn shows_body(o: BodyObject, b: BodyState) -> bool {
    match (o, b) {
        (BodyObject::Text(v), BodyState::Raw(w)) => v@ == w@,
        (
            BodyObject::Multipart { fields, files },
            BodyState::Multipart { fields: field_parts, files: file_parts },
        ) => {
            &&& fields@.len() == field_parts@.len()
            &&& forall|i: int|
                0 <= i < fields@.len() ==> shows_field(#[trigger] fields@[i], field_parts@[i])
            &&& files@.len() == file_parts@.len()
            &&& forall|i: int|
                0 <= i < files@.len() ==> shows_file(#[trigger] files@[i], file_parts@[i])
        },
        _ => false,
    }
}

/// A request object shows a unit's request.
pub open spec fn shows_request<F>(o: RequestObject, st: ExchangeState<F>) -> bool {
    &&& o.method@ == encode_utf8(st.req.method@)
    &&& o.uri@ == encode_utf8(st.uri_abs@)
    &&& o.target@ == st.target@
    &&& nullable(o.authority) == nullable(st.authority)
    &&& o.protocol@ == encode_utf8(st.protocol_php@)
    &&& o.headers@ == st.headers@
    &&& shows_body(o.body, st.body)
    &&& shows_address(o.remote, st.remote@)
    &&& shows_address(o.server, st.server@)
    &&& match (o.tls, st.req.tls) {
        (Some(a), Some(b)) => shows_tls(a, b),
        (None, None) => true,
        _ => false,
    }
    &&& o.received_at == match st.req.received_at {
        Some(t) => t,
        None => 0,
    }
}

fn copy_nullable(v: &Option<Vec<u8>>) -> (r: Option<Vec<u8>>)
    ensures
        nullable(r) == nullable(*v),
{
    match v {
        Some(b) => Some(copy_bytes(b.as_slice())),
        None => None,
    }
}

fn text_nullable(v: &Option<String>) -> (r: Option<Vec<u8>>)
    ensures
        nullable(r) == text_or_null(*v),
{
    match v {
        Some(s) => Some(copy_bytes(s.as_str().as_bytes())),
        None => None,
    }
}

/// A copy of groups.
pub fn emit_headers(g: &Grouped) -> (r: Grouped)
    ensures
        r@ == g@,
{
    let mut entries: Vec<(Vec<u8>, Vec<Vec<u8>>)> = Vec::new();
    assert(groups(entries@) =~= g@.take(0));
    for i in 0..g.entries.len()
        invariant
            groups(entries@) == g@.take(i as int),
    {
        let key = copy_bytes(g.entries[i].0.as_slice());
        let source: &Vec<Vec<u8>> = &g.entries[i].1;
        let mut values: Vec<Vec<u8>> = Vec::new();
        assert(paths(values@) =~= paths(source@).take(0));
        for k in 0..source.len()
            invariant
                paths(values@) == paths(source@).take(k as int),
        {
            let ghost before = values@;
            let value = copy_bytes(source[k].as_slice());
            values.push(value);
            proof {
                lemma_take_push(paths(source@), k as int);
                assert(paths(values@) =~= paths(before).push(value@));
            }
        }
        proof {
            lemma_take_all(paths(source@));
        }
        let ghost before = entries@;
        entries.push((key, values));
        proof {
            lemma_take_push(g@, i as int);
            assert(groups(entries@) =~= groups(before).push((key@, paths(values@))));
        }
    }
    proof {
        lemma_take_all(g@);
    }
    Grouped { entries }
}

/// An address object.
pub fn build_address(a: &AddrOwned) -> (r: AddressObject)
    ensures
        shows_address(r, a@),
{
    match a {
        AddrOwned::Inet { ip, port } => AddressObject::Inet {
            ip: copy_bytes(ip.as_str().as_bytes()),
            port: *port as i64,
        },
        AddrOwned::Unix(path) => AddressObject::Unix { path: copy_nullable(path) },
    }
}

/// A TLS object.
pub fn build_tls(t: &TlsView) -> (r: TlsObject)
    ensures
        shows_tls(r, *t),
{
    let (cert_serial, cert_organization, cert_fingerprint): (
        Option<Vec<u8>>,
        Option<Vec<u8>>,
        Option<Vec<u8>>,
    ) = match &t.cert {
        Some(c) => (
            Some(copy_bytes(c.serial.as_str().as_bytes())),
            text_nullable(&c.organization),
            Some(copy_bytes(c.fingerprint.as_str().as_bytes())),
        ),
        None => (None, None, None),
    };
    TlsObject {
        version: copy_bytes(t.version.as_str().as_bytes()),
        cipher: copy_bytes(t.cipher.as_str().as_bytes()),
        negotiated_protocol: text_nullable(&t.alpn),
        requested_server_name: text_nullable(&t.server_name),
        cert_serial,
        cert_organization,
        cert_fingerprint,
    }
}

/// An uploaded-file object.
pub fn build_file(p: &FilePart) -> (r: FileObject)
    ensures
        shows_file(r, *p),
{
    FileObject {
        name: copy_bytes(p.name.as_slice()),
        client_filename: copy_bytes(p.client_filename.as_slice()),
        client_media_type: copy_nullable(&p.client_media_type),
        headers: emit_headers(&p.headers),
        tmp_path: copy_bytes(p.path.as_slice()),
        size: signed_count(p.size),
    }
}

/// A multipart object: every field and every file, in order.
pub fn build_multipart(field_parts: &Vec<FieldPart>, file_parts: &Vec<FilePart>) -> (r: (
    Vec<FieldObject>,
    Vec<FileObject>,
))
    ensures
        r.0@.len() == field_parts@.len(),
        forall|i: int| 0 <= i < r.0@.len() ==> shows_field(#[trigger] r.0@[i], field_parts@[i]),
        r.1@.len() == file_parts@.len(),
        forall|i: int| 0 <= i < r.1@.len() ==> shows_file(#[trigger] r.1@[i], file_parts@[i]),
{
    let mut fields: Vec<FieldObject> = Vec::new();
    for i in 0..field_parts.len()
        invariant
            fields@.len() == i,
            forall|k: int|
                0 <= k < fields@.len() ==> shows_field(#[trigger] fields@[k], field_parts@[k]),
    {
        let p: &FieldPart = &field_parts[i];
        fields.push(
            FieldObject {
                name: copy_bytes(p.field.name.as_slice()),
                value: copy_bytes(p.field.value.as_slice()),
                headers: emit_headers(&p.headers),
            },
        );
    }
    let mut files: Vec<FileObject> = Vec::new();
    for i in 0..file_parts.len()
        invariant
            files@.len() == i,
            forall|k: int|
                0 <= k < files@.len() ==> shows_file(#[trigger] files@[k], file_parts@[k]),
    {
        files.push(build_file(&file_parts[i]));
    }
    (fields, files)
}

impl<F> ExchangeState<F> {
    /// The request object of this unit.
    pub fn build_request(&self) -> (r: RequestObject)
        ensures
            shows_request(r, *self),
    {
        let body: BodyObject = match &self.body {
            BodyState::Raw(v) => BodyObject::Text(copy_bytes(v.as_slice())),
            BodyState::Multipart { fields, files } => {
                let (fields, files): (Vec<FieldObject>, Vec<FileObject>) = build_multipart(
                    fields,
                    files,
                );
                BodyObject::Multipart { fields, files }
            },
        };
        let tls: Option<TlsObject> = match &self.req.tls {
            Some(t) => Some(build_tls(t)),
            None => None,
        };
        let received_at: u64 = match self.req.received_at {
            Some(t) => t,
            None => 0,
        };
        RequestObject {
            method: copy_bytes(self.req.method.as_str().as_bytes()),
            uri: copy_bytes(self.uri_abs.as_str().as_bytes()),
            target: copy_bytes(self.target.as_slice()),
            authority: copy_nullable(&self.authority),
            protocol: copy_bytes(self.protocol_php.as_str().as_bytes()),
            headers: emit_headers(&self.headers),
            body,
            remote: build_address(&self.remote),
            server: build_address(&self.server),
            tls,
            received_at,
        }
    }
}

/// How writing a graph into the engine went, as far as it got.
#[derive(Clone, Copy, Debug, PartialEq, Eq, Structural)]
pub struct BuildReport {
    /// The request class is registered.
    pub class_known: bool,
    /// A part of the multipart object threw.
    pub parts_threw: bool,
    /// An exception was pending before the request object was assembled.
    pub threw_before: bool,
    /// An exception was pending after it was assembled.
    pub threw_after: bool,
}

/// What `getRequest()` hands out, and what the exchange remembers. A graph is
/// remembered only when it was written whole: every later call would hand out
/// a poisoned object otherwise.
pub fn settle_request(memo: Option<u64>, fresh: u64, report: BuildReport) -> (r: (
    Option<u64>,
    Option<u64>,
))
    ensures
        r == (match memo {
            Some(m) => (Some(m), Some(m)),
            None => if report.class_known && !report.parts_threw && !report.threw_before
                && !report.threw_after {
                (Some(fresh), Some(fresh))
            } else {
                (None, None)
            },
        }),
{
    match memo {
        Some(m) => (Some(m), Some(m)),
        None => {
            if !report.class_known || report.parts_threw || report.threw_before
                || report.threw_after {
                (None, None)
            } else {
                (Some(fresh), Some(fresh))
            }
        },
    }
}

} // verus!
