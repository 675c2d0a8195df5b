//! A request as the host hands it to a worker, and the vocabulary around it.

use vstd::prelude::*;
use crate::fields::FieldLines;
use crate::spool::SpooledFile;

verus! {

/// How a pool serves: one script run per request, a resident loop, or exchange
/// objects. The resident modes name their script.
pub enum Mode {
    Classic,
    Worker(Vec<u8>),
    Dispatcher(Vec<u8>),
}

/// How a guarded engine call came back.
#[derive(Clone, Copy, Debug, PartialEq, Eq, Structural)]
pub enum Outcome {
    Completed,
    Bailout,
    Exit,
    Throw,
}

impl Outcome {
    /// The outcome that the engine's numeric code stands for; an unknown code
    /// is a bailout.
    pub fn from_c(v: i32) -> (r: Outcome)
        ensures
            r == (if v == 0 {
                Outcome::Completed
            } else if v == 2 {
                Outcome::Exit
            } else if v == 3 {
                Outcome::Throw
            } else {
                Outcome::Bailout
            }),
    {
        match v {
            0 => Outcome::Completed,
            1 => Outcome::Bailout,
            2 => Outcome::Exit,
            3 => Outcome::Throw,
            _ => Outcome::Bailout,
        }
    }
}

/// One endpoint of an accepted connection, as the socket reports it.
pub enum Addr {
    Inet {
        /// The address in its canonical text form, without brackets or scope.
        ip: String,
        /// An IPv6 address.
        v6: bool,
        /// The IPv6 scope; 0 is none.
        scope_id: u32,
        port: u16,
    },
    /// `None` is an unnamed endpoint, the usual case for a peer connecting to a
    /// unix listener.
    Unix(Option<Vec<u8>>),
}

/// What is known of a client certificate.
pub struct ClientCertView {
    pub serial: String,
    pub organization: Option<String>,
    pub fingerprint: String,
}

/// What is known of a TLS session.
pub struct TlsView {
    pub version: String,
    pub cipher: String,
    pub alpn: Option<String>,
    pub server_name: Option<String>,
    pub cert: Option<ClientCertView>,
}

/// A form field of a multipart body.
pub struct FormField {
    /// The content-disposition name, bytes as received.
    pub name: Vec<u8>,
    /// The part's body, not decoded.
    pub value: Vec<u8>,
    /// The part's header section.
    pub headers: FieldLines,
}

/// A file part of a multipart body.
pub struct UploadedFile {
    pub name: Vec<u8>,
    /// Byte for byte as sent; empty is a browser submitting an empty input.
    pub client_filename: Vec<u8>,
    /// The content-type value verbatim; an empty one is `None`.
    pub client_media_type: Option<Vec<u8>>,
    pub headers: FieldLines,
    pub file: SpooledFile,
    /// Bytes written to disk.
    pub size: u64,
}

/// A parsed multipart body.
pub struct MultipartBody {
    pub fields: Vec<FormField>,
    pub files: Vec<UploadedFile>,
}

/// A request body.
pub enum Body {
    /// The bytes, and how many of them were read already.
    Raw { data: Vec<u8>, pos: usize },
    /// The body could not be read.
    Unreadable,
    /// Parsed by the host before the request was queued.
    Multipart(MultipartBody),
}

/// A request.
pub struct Request {
    pub method: String,
    pub uri: String,
    /// Raw request-target bytes; `None` falls back to `uri`.
    pub target: Option<Vec<u8>>,
    /// The authority the client named, byte for byte.
    pub authority: Option<Vec<u8>>,
    pub https: bool,
    pub query: String,
    /// Wire spelling ("HTTP/2.0").
    pub protocol: String,
    pub remote: Addr,
    /// The accepting socket.
    pub server: Addr,
    /// Configured server name and port.
    pub server_name: String,
    pub server_port: u16,
    pub script_name: String,
    pub document_root: String,
    pub script_filename: Vec<u8>,
    pub headers: FieldLines,
    pub server_vars: Vec<(String, String)>,
    /// The first content-type field line, raw bytes.
    pub content_type: Option<Vec<u8>>,
    /// Wire byte count; -1 if unknown.
    pub content_length: i64,
    pub body: Body,
    /// Unix seconds as the bits of a double; `None` is not stamped yet.
    pub received_at: Option<u64>,
    pub tls: Option<TlsView>,
}

/// How far a buffered response has got.
#[derive(Clone, Copy, Debug, PartialEq, Eq, Structural)]
pub enum StreamState {
    /// Nothing recorded yet.
    NotSent,
    /// A head has been recorded; no body yet.
    HeadSent,
    /// Body output began while the handler ran, not in the teardown flush.
    BodyStreamed,
}

} // verus!
