//! The CGI view of a request: the strings the engine's `$_SERVER` table is
//! filled from.

use vstd::prelude::*;
use vstd::utf8::encode_utf8;
use crate::fields::{copy_bytes, copy_text, line, lines, FieldLines, Line};
use crate::fold::{fold_field_lines, folded};
use crate::seqs::{lemma_filter_push, lemma_take_all, lemma_take_push};
use crate::text::{decimal, lossy, lossy_text, push_decimal, same_name};
use crate::types::{Addr, Request};

verus! {

/// The CGI materialization of a request. None of the byte strings that stand
/// for a C string holds a NUL byte.
pub struct ReqC {
    pub method: Vec<u8>,
    pub query: Vec<u8>,
    pub uri: Vec<u8>,
    pub script: Vec<u8>,
    pub ctype: Option<Vec<u8>>,
    pub cookie: Option<Vec<u8>>,
    pub authorization: Option<Vec<u8>>,
    /// Environment variables; of two with one name the later counts.
    pub env: Vec<(Vec<u8>, Vec<u8>)>,
    /// One value per field name.
    pub folded_headers: FieldLines,
    pub remote_addr: String,
    pub remote_port: String,
    pub server_port: String,
}

/// Whether a byte string holds a NUL byte.
pub open spec fn has_nul(b: Seq<u8>) -> bool {
    exists|i: int| 0 <= i < b.len() && #[trigger] b[i] == 0
}

/// A NUL byte cannot cross the CGI boundary; the value degrades to empty.
pub open spec fn cgi_value(b: Seq<u8>) -> Seq<u8> {
    if has_nul(b) {
        Seq::empty()
    } else {
        b
    }
}

pub(crate) fn holds_nul(b: &[u8]) -> (r: bool)
    ensures
        r == has_nul(b@),
{
    for i in 0..b.len()
        invariant
            forall|k: int| 0 <= k < i ==> #[trigger] b@[k] != 0,
    {
        if b[i] == 0 {
            return true;
        }
    }
    false
}

/// A byte string as a C string's content.
pub fn cgi_cstring(b: &[u8]) -> (r: Vec<u8>)
    ensures
        r@ == cgi_value(b@),
{
    if holds_nul(b) {
        let r: Vec<u8> = Vec::new();
        assert(r@ =~= Seq::<u8>::empty());
        r
    } else {
        copy_bytes(b)
    }
}

/// The address and port strings of an endpoint. A unix peer has no network
/// address: its address is empty and its port is 0.
pub open spec fn addr_strings(a: Addr) -> (Seq<char>, Seq<char>) {
    match a {
        Addr::Inet { ip, port, .. } => (ip@, decimal(port as nat)),
        Addr::Unix(_) => (""@, "0"@),
    }
}

/// A number as text.
pub fn decimal_text(n: u64) -> (r: String)
    ensures
        r@ == decimal(n as nat),
{
    let mut r = String::new();
    push_decimal(&mut r, n);
    assert(r@ =~= decimal(n as nat));
    r
}

/// The address and port strings of an endpoint.
pub fn cgi_addr_strings(addr: &Addr) -> (r: (String, String))
    ensures
        (r.0@, r.1@) == addr_strings(*addr),
{
    match addr {
        Addr::Inet { ip, v6: _, scope_id: _, port } => (
            copy_text(ip.as_str()),
            decimal_text(*port as u64),
        ),
        Addr::Unix(_) => (copy_text(""), copy_text("0")),
    }
}

/// The value of the first line with a name.
pub open spec fn first_value(h: Seq<Line>, name: Seq<char>) -> Option<Seq<u8>>
    decreases h.len(),
{
    if h.len() == 0 {
        None
    } else if same_name(h[0].0, name) {
        Some(h[0].1)
    } else {
        first_value(h.drop_first(), name)
    }
}

/// The place of the first line with a name.
pub fn find_line(h: &[(String, Vec<u8>)], name: &str) -> (r: Option<usize>)
    ensures
        match r {
            Some(i) => i < h@.len() && first_value(lines(h@), name@) == Some(h@[i as int].1@),
            None => first_value(lines(h@), name@) is None,
        },
{
    assert(lines(h@).skip(0) =~= lines(h@));
    for i in 0..h.len()
        invariant
            first_value(lines(h@), name@) == first_value(lines(h@).skip(i as int), name@),
    {
        let ghost rest = lines(h@).skip(i as int);
        assert(rest[0] == line(h@[i as int]));
        assert(rest.drop_first() =~= lines(h@).skip(i + 1));
        if h[i].0.as_str().eq_ignore_ascii_case(name) {
            return Some(i);
        }
    }
    assert(lines(h@).skip(h@.len() as int) =~= Seq::empty());
    None
}

/// An optional value as a C string's content.
pub open spec fn cgi_option(v: Option<Seq<u8>>) -> Option<Seq<u8>> {
    match v {
        Some(b) => Some(cgi_value(b)),
        None => None,
    }
}

/// The content of an optional byte string.
pub open spec fn opt_bytes(v: Option<Vec<u8>>) -> Option<Seq<u8>> {
    match v {
        Some(b) => Some(b@),
        None => None,
    }
}

fn cgi_field(h: &[(String, Vec<u8>)], name: &str) -> (r: Option<Vec<u8>>)
    ensures
        opt_bytes(r) == cgi_option(first_value(lines(h@), name@)),
{
    match find_line(h, name) {
        Some(i) => Some(cgi_cstring(h[i].1.as_slice())),
        None => None,
    }
}

/// The content of a list of environment variables.
pub open spec fn pairs(e: Seq<(Vec<u8>, Vec<u8>)>) -> Seq<(Seq<u8>, Seq<u8>)> {
    e.map_values(|p: (Vec<u8>, Vec<u8>)| (p.0@, p.1@))
}

/// The environment that a list of variables describes; the later of two with
/// one name counts.
pub open spec fn environment(e: Seq<(Seq<u8>, Seq<u8>)>) -> Map<Seq<u8>, Seq<u8>>
    decreases e.len(),
{
    if e.len() == 0 {
        Map::empty()
    } else {
        environment(e.drop_last()).insert(e.last().0, e.last().1)
    }
}

/// The server variables of a request as bytes.
pub open spec fn var_bytes(v: Seq<(String, String)>) -> Seq<(Seq<u8>, Seq<u8>)> {
    v.map_values(|p: (String, String)| (encode_utf8(p.0@), encode_utf8(p.1@)))
}

/// The variables that can cross the CGI boundary: a value with a NUL byte is
/// dropped.
pub open spec fn crossing(v: Seq<(Seq<u8>, Seq<u8>)>) -> Seq<(Seq<u8>, Seq<u8>)> {
    v.filter(|p: (Seq<u8>, Seq<u8>)| !has_nul(p.1))
}

fn env_of(vars: &Vec<(String, String)>) -> (r: Vec<(Vec<u8>, Vec<u8>)>)
    ensures
        pairs(r@) == crossing(var_bytes(vars@)),
{
    let ghost all = var_bytes(vars@);
    let ghost keep = |p: (Seq<u8>, Seq<u8>)| !has_nul(p.1);
    let mut r: Vec<(Vec<u8>, Vec<u8>)> = Vec::new();
    proof {
        reveal(Seq::filter);
        assert(pairs(r@) =~= all.take(0).filter(keep));
    }
    for i in 0..vars.len()
        invariant
            all == var_bytes(vars@),
            keep == (|p: (Seq<u8>, Seq<u8>)| !has_nul(p.1)),
            pairs(r@) == all.take(i as int).filter(keep),
    {
        let key = copy_bytes(vars[i].0.as_str().as_bytes());
        let value = copy_bytes(vars[i].1.as_str().as_bytes());
        let ghost before = r@;
        proof {
            lemma_take_push(all, i as int);
            lemma_filter_push(all.take(i as int), (key@, value@), keep);
        }
        if !holds_nul(value.as_slice()) {
            r.push((key, value));
            assert(pairs(r@) =~= pairs(before).push((key@, value@)));
        }
    }
    proof {
        lemma_take_all(all);
    }
    r
}

impl ReqC {
    /// This is the CGI view of that request.
    pub open spec fn materializes(&self, r: Request) -> bool {
        let fields = folded(lines(r.headers@));
        &&& lines(self.folded_headers@) == fields
        &&& self.method@ == cgi_value(encode_utf8(r.method@))
        &&& self.query@ == cgi_value(encode_utf8(r.query@))
        &&& self.uri@ == cgi_value(encode_utf8(r.uri@))
        &&& self.script@ == cgi_value(encode_utf8(lossy(r.script_filename@)))
        &&& opt_bytes(self.ctype) == cgi_option(opt_bytes(r.content_type))
        // cookie repeats rejoin, as the fold does; authorization is a singleton
        &&& opt_bytes(self.cookie) == cgi_option(first_value(fields, "cookie"@))
        &&& opt_bytes(self.authorization) == cgi_option(
            first_value(lines(r.headers@), "authorization"@),
        )
        &&& pairs(self.env@) == crossing(var_bytes(r.server_vars@))
        &&& (self.remote_addr@, self.remote_port@) == addr_strings(r.remote)
        &&& self.server_port@ == decimal(r.server_port as nat)
    }

    /// The CGI view of a request.
    pub fn build(r: &Request) -> (c: ReqC)
        ensures
            c.materializes(*r),
    {
        let folded_headers = fold_field_lines(r.headers.as_slice());
        let cookie = cgi_field(folded_headers.as_slice(), "cookie");
        let authorization = cgi_field(r.headers.as_slice(), "authorization");
        let env = env_of(&r.server_vars);
        let (remote_addr, remote_port): (String, String) = cgi_addr_strings(&r.remote);
        let script = lossy_text(r.script_filename.as_slice());
        let ctype: Option<Vec<u8>> = match &r.content_type {
            Some(v) => Some(cgi_cstring(v.as_slice())),
            None => None,
        };
        ReqC {
            method: cgi_cstring(r.method.as_str().as_bytes()),
            query: cgi_cstring(r.query.as_str().as_bytes()),
            uri: cgi_cstring(r.uri.as_str().as_bytes()),
            script: cgi_cstring(script.as_str().as_bytes()),
            ctype,
            cookie,
            authorization,
            env,
            folded_headers,
            remote_addr,
            remote_port,
            server_port: decimal_text(r.server_port as u64),
        }
    }

    /// The value of an environment variable.
    pub fn getenv(&self, key: &[u8]) -> (r: Option<&Vec<u8>>)
        ensures
            match r {
                Some(v) => environment(pairs(self.env@)).contains_key(key@) && environment(
                    pairs(self.env@),
                )[key@] == v@,
                None => !environment(pairs(self.env@)).contains_key(key@),
            },
    {
        let ghost all = pairs(self.env@);
        let mut r: Option<&Vec<u8>> = None;
        for i in 0..self.env.len()
            invariant
                all == pairs(self.env@),
                match r {
                    Some(v) => environment(all.take(i as int)).contains_key(key@) && environment(
                        all.take(i as int),
                    )[key@] == v@,
                    None => !environment(all.take(i as int)).contains_key(key@),
                },
        {
            proof {
                lemma_take_push(all, i as int);
                assert(all.take(i + 1).drop_last() =~= all.take(i as int));
                assert(all[i as int] == (self.env@[i as int].0@, self.env@[i as int].1@));
            }
            if crate::fields::same_bytes(self.env[i].0.as_slice(), key) {
                r = Some(&self.env[i].1);
            }
        }
        proof {
            lemma_take_all(all);
        }
        r
    }
}

} // verus!
