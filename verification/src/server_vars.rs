//! The `$_SERVER` table of a request, in registration order. Registration is
//! last-write-wins.

use vstd::prelude::*;
use vstd::utf8::encode_utf8;
use crate::cgi::{cgi_cstring, cgi_value, find_line, first_value, has_nul, ReqC};
use crate::fields::{copy_text, line, lines, FieldLines, Line};
use crate::seqs::{lemma_take_all, lemma_take_push};
use crate::text::{chars_of, decimal, lossy, lossy_text, white_space};
use crate::types::Request;

verus! {

/// A variable as it is registered: neither part crosses with a NUL byte.
pub open spec fn registered(name: Seq<char>, value: Seq<u8>) -> Line {
    (
        if has_nul(encode_utf8(name)) {
            Seq::empty()
        } else {
            name
        },
        cgi_value(value),
    )
}

/// The text before the first question mark.
pub open spec fn before_query(s: Seq<char>) -> Seq<char>
    decreases s.len(),
{
    if s.len() == 0 || s[0] == '?' {
        Seq::empty()
    } else {
        seq![s[0]] + before_query(s.drop_first())
    }
}

/// The text up to the first white space.
pub open spec fn upto_white(s: Seq<char>) -> Seq<char>
    decreases s.len(),
{
    if s.len() == 0 || white_space(s[0]) {
        Seq::empty()
    } else {
        seq![s[0]] + upto_white(s.drop_first())
    }
}

/// The first word of a text.
pub open spec fn first_text_word(s: Seq<char>) -> Seq<char>
    decreases s.len(),
{
    if s.len() > 0 && white_space(s[0]) {
        first_text_word(s.drop_first())
    } else {
        upto_white(s)
    }
}

/// A field name's character in a variable name.
pub open spec fn cgi_char(c: char) -> char {
    if 'a' <= c && c <= 'z' {
        ((c as u32 - 32) as u32) as char
    } else if c == '-' {
        '_'
    } else {
        c
    }
}

/// The variable that a header field is registered under.
pub open spec fn header_variable(name: Seq<char>) -> Seq<char> {
    "HTTP_"@ + name.map_values(|c: char| cgi_char(c))
}

/// The variables about the document and the peer.
pub open spec fn document_variables(r: Request, c: ReqC) -> Seq<Line> {
    seq![
        registered("PHP_SELF"@, encode_utf8(r.script_name@)),
        registered("DOCUMENT_URI"@, encode_utf8(before_query(r.uri@))),
        registered("DOCUMENT_ROOT"@, encode_utf8(r.document_root@)),
        registered(
            "REQUEST_SCHEME"@,
            if r.https {
                encode_utf8("https"@)
            } else {
                encode_utf8("http"@)
            },
        ),
        registered("REMOTE_HOST"@, encode_utf8(c.remote_addr@)),
        registered("REMOTE_PORT"@, encode_utf8(c.remote_port@)),
        registered("REMOTE_IDENT"@, encode_utf8(""@)),
    ]
}

/// The variables about the request line and the script.
pub open spec fn script_variables(r: Request, c: ReqC) -> Seq<Line> {
    seq![
        registered("REQUEST_METHOD"@, c.method@),
        registered("REQUEST_URI"@, c.uri@),
        registered("QUERY_STRING"@, c.query@),
        registered("SCRIPT_FILENAME"@, c.script@),
        registered("SCRIPT_NAME"@, encode_utf8(r.script_name@)),
        registered("SERVER_PROTOCOL"@, encode_utf8(r.protocol@)),
        registered("SERVER_SOFTWARE"@, encode_utf8("Rapira"@)),
    ]
}

/// The variables about the server and the authentication scheme.
pub open spec fn gateway_variables(r: Request, c: ReqC) -> Seq<Line> {
    seq![
        registered("SERVER_NAME"@, encode_utf8(r.server_name@)),
        registered("SERVER_PORT"@, encode_utf8(c.server_port@)),
        registered("REMOTE_ADDR"@, encode_utf8(c.remote_addr@)),
        registered("GATEWAY_INTERFACE"@, encode_utf8("CGI/1.1"@)),
        registered(
            "HTTPS"@,
            if r.https {
                encode_utf8("on"@)
            } else {
                encode_utf8(""@)
            },
        ),
        registered(
            "AUTH_TYPE"@,
            match first_value(lines(r.headers@), "authorization"@) {
                Some(v) => encode_utf8(first_text_word(lossy(v))),
                None => encode_utf8(""@),
            },
        ),
    ]
}

/// The variables that every request has.
pub open spec fn fixed_variables(r: Request, c: ReqC) -> Seq<Line> {
    document_variables(r, c) + script_variables(r, c) + gateway_variables(r, c)
}

/// The variables that only some requests have: the authenticated user, the
/// content type and a known content length.
pub open spec fn optional_variables(
    r: Request,
    c: ReqC,
    auth_user: Option<Seq<u8>>,
) -> Seq<Line> {
    let user = match auth_user {
        Some(u) => seq![registered("REMOTE_USER"@, encode_utf8(lossy(u)))],
        None => Seq::empty(),
    };
    let ctype = match c.ctype {
        Some(t) => seq![registered("CONTENT_TYPE"@, t@)],
        None => Seq::empty(),
    };
    let length = if r.content_length >= 0 {
        seq![registered("CONTENT_LENGTH"@, encode_utf8(decimal(r.content_length as nat)))]
    } else {
        Seq::empty()
    };
    user + ctype + length
}

/// The variables of the folded header fields.
pub open spec fn header_variables(h: Seq<Line>) -> Seq<Line> {
    h.map_values(|l: Line| registered(header_variable(l.0), l.1))
}

/// The configured variables.
pub open spec fn configured_variables(v: Seq<(String, String)>) -> Seq<Line> {
    v.map_values(|p: (String, String)| registered(p.0@, encode_utf8(p.1@)))
}

/// The whole table, in registration order.
pub open spec fn server_variables(
    r: Request,
    c: ReqC,
    auth_user: Option<Seq<u8>>,
) -> Seq<Line> {
    fixed_variables(r, c) + optional_variables(r, c, auth_user) + header_variables(
        lines(c.folded_headers@),
    ) + configured_variables(r.server_vars@)
}

fn put(out: &mut FieldLines, name: &str, value: &[u8])
    ensures
        lines(final(out)@) == lines(old(out)@).push(registered(name@, value@)),
{
    let empty = cgi_cstring(name.as_bytes()).len() == 0;
    let name: String = if empty {
        proof {
            if !has_nul(encode_utf8(name@)) {
                assert(encode_utf8(name@).len() == 0);
                assert(name@ =~= Seq::<char>::empty()) by {
                    if name@.len() > 0 {
                        vstd::utf8::encode_utf8_first_scalar(name@);
                    }
                }
            }
        }
        let s = String::new();
        assert(s@ =~= Seq::<char>::empty());
        s
    } else {
        copy_text(name)
    };
    let value = cgi_cstring(value);
    let ghost before = out@;
    out.push((name, value));
    assert(lines(out@) =~= lines(before).push((name@, value@)));
}

fn is_white(c: char) -> (r: bool)
    ensures
        r == white_space(c),
{
    let u: u32 = c as u32;
    (0x09 <= u && u <= 0x0d) || u == 0x20 || u == 0x85 || u == 0xa0 || u == 0x1680 || (0x2000 <= u
        && u <= 0x200a) || u == 0x2028 || u == 0x2029 || u == 0x202f || u == 0x205f || u == 0x3000
}

fn path_of(uri: &str) -> (r: String)
    ensures
        r@ == before_query(uri@),
{
    let chars = chars_of(uri);
    let mut r = String::new();
    let mut i: usize = 0;
    assert(chars@.skip(0) =~= chars@);
    assert(before_query(uri@) =~= r@ + before_query(chars@.skip(0)));
    while i < chars.len() && chars[i] != '?'
        invariant
            i <= chars@.len(),
            before_query(uri@) == r@ + before_query(chars@.skip(i as int)),
        decreases chars@.len() - i,
    {
        let ghost here = chars@.skip(i as int);
        let ghost before = r@;
        assert(here.drop_first() =~= chars@.skip(i + 1));
        r.push(chars[i]);
        i = i + 1;
        assert(before + (seq![here[0]] + before_query(here.drop_first())) =~= r@ + before_query(
            chars@.skip(i as int),
        ));
    }
    assert(before_query(chars@.skip(i as int)) =~= Seq::empty());
    assert(r@ =~= before_query(uri@));
    r
}

fn word_of(s: &str) -> (r: String)
    ensures
        r@ == first_text_word(s@),
{
    let chars = chars_of(s);
    let mut i: usize = 0;
    assert(chars@.skip(0) =~= chars@);
    while i < chars.len() && is_white(chars[i])
        invariant
            i <= chars@.len(),
            first_text_word(s@) == first_text_word(chars@.skip(i as int)),
        decreases chars@.len() - i,
    {
        assert(chars@.skip(i as int).drop_first() =~= chars@.skip(i + 1));
        i = i + 1;
    }
    let ghost rest = chars@.skip(i as int);
    let mut r = String::new();
    assert(upto_white(rest) =~= r@ + upto_white(chars@.skip(i as int)));
    while i < chars.len() && !is_white(chars[i])
        invariant
            i <= chars@.len(),
            upto_white(rest) == r@ + upto_white(chars@.skip(i as int)),
        decreases chars@.len() - i,
    {
        let ghost here = chars@.skip(i as int);
        let ghost before = r@;
        assert(here.drop_first() =~= chars@.skip(i + 1));
        r.push(chars[i]);
        i = i + 1;
        assert(before + (seq![here[0]] + upto_white(here.drop_first())) =~= r@ + upto_white(
            chars@.skip(i as int),
        ));
    }
    assert(upto_white(chars@.skip(i as int)) =~= Seq::empty());
    assert(r@ =~= first_text_word(s@));
    r
}

fn variable_name(field: &str) -> (r: String)
    ensures
        r@ == header_variable(field@),
{
    let chars = chars_of(field);
    let mut r = copy_text("HTTP_");
    let ghost mapped = field@.map_values(|c: char| cgi_char(c));
    assert(r@ =~= "HTTP_"@ + mapped.take(0));
    for i in 0..chars.len()
        invariant
            chars@ == field@,
            mapped == field@.map_values(|c: char| cgi_char(c)),
            r@ == "HTTP_"@ + mapped.take(i as int),
    {
        let c: char = chars[i];
        let d: char = if 'a' <= c && c <= 'z' {
            let u: u8 = (c as u32 - 32) as u8;
            u as char
        } else if c == '-' {
            '_'
        } else {
            c
        };
        proof {
            lemma_take_push(mapped, i as int);
            assert(mapped[i as int] == cgi_char(c));
        }
        r.push(d);
        assert(r@ =~= "HTTP_"@ + mapped.take(i + 1));
    }
    proof {
        lemma_take_all(mapped);
    }
    r
}

/// The `$_SERVER` table of a request. `auth_user` is the user the engine read
/// out of the credentials, if any.
pub fn register_server_variables(r: &Request, c: &ReqC, auth_user: Option<&[u8]>) -> (out:
    FieldLines)
    ensures
        lines(out@) == server_variables(
            *r,
            *c,
            match auth_user {
                Some(u) => Some(u@),
                None => None,
            },
        ),
{
    let mut out: FieldLines = Vec::new();
    put_document(&mut out, r, c);
    put_script(&mut out, r, c);
    put_gateway(&mut out, r, c);
    assert(lines(out@) =~= fixed_variables(*r, *c));
    put_optional(&mut out, r, c, auth_user);
    let ghost start = lines(out@);
    let ghost fields = lines(c.folded_headers@);
    assert(start =~= start + header_variables(fields.take(0)));
    for i in 0..c.folded_headers.len()
        invariant
            fields == lines(c.folded_headers@),
            lines(out@) == start + header_variables(fields.take(i as int)),
    {
        let name = variable_name(c.folded_headers[i].0.as_str());
        put(&mut out, name.as_str(), c.folded_headers[i].1.as_slice());
        proof {
            lemma_take_push(fields, i as int);
            assert(fields[i as int] == line(c.folded_headers@[i as int]));
            assert(lines(out@) =~= start + header_variables(fields.take(i + 1)));
        }
    }
    proof {
        lemma_take_all(fields);
    }
    let ghost start = lines(out@);
    let ghost vars = r.server_vars@;
    assert(start =~= start + configured_variables(vars.take(0)));
    for i in 0..r.server_vars.len()
        invariant
            vars == r.server_vars@,
            lines(out@) == start + configured_variables(vars.take(i as int)),
    {
        put(&mut out, r.server_vars[i].0.as_str(), r.server_vars[i].1.as_str().as_bytes());
        proof {
            lemma_take_push(vars, i as int);
            assert(lines(out@) =~= start + configured_variables(vars.take(i + 1)));
        }
    }
    proof {
        lemma_take_all(vars);
    }
    out
}

fn put_document(out: &mut FieldLines, r: &Request, c: &ReqC)
    ensures
        lines(final(out)@) == lines(old(out)@) + document_variables(*r, *c),
{
    put(out, "PHP_SELF", r.script_name.as_str().as_bytes());
    let document = path_of(r.uri.as_str());
    put(out, "DOCUMENT_URI", document.as_str().as_bytes());
    put(out, "DOCUMENT_ROOT", r.document_root.as_str().as_bytes());
    let scheme: &str = if r.https {
        "https"
    } else {
        "http"
    };
    put(out, "REQUEST_SCHEME", scheme.as_bytes());
    put(out, "REMOTE_HOST", c.remote_addr.as_str().as_bytes());
    put(out, "REMOTE_PORT", c.remote_port.as_str().as_bytes());
    put(out, "REMOTE_IDENT", "".as_bytes());
    assert(lines(out@) =~= lines(old(out)@) + document_variables(*r, *c));
}

fn put_script(out: &mut FieldLines, r: &Request, c: &ReqC)
    ensures
        lines(final(out)@) == lines(old(out)@) + script_variables(*r, *c),
{
    put(out, "REQUEST_METHOD", c.method.as_slice());
    put(out, "REQUEST_URI", c.uri.as_slice());
    put(out, "QUERY_STRING", c.query.as_slice());
    put(out, "SCRIPT_FILENAME", c.script.as_slice());
    put(out, "SCRIPT_NAME", r.script_name.as_str().as_bytes());
    put(out, "SERVER_PROTOCOL", r.protocol.as_str().as_bytes());
    put(out, "SERVER_SOFTWARE", "Rapira".as_bytes());
    assert(lines(out@) =~= lines(old(out)@) + script_variables(*r, *c));
}

fn put_gateway(out: &mut FieldLines, r: &Request, c: &ReqC)
    ensures
        lines(final(out)@) == lines(old(out)@) + gateway_variables(*r, *c),
{
    put(out, "SERVER_NAME", r.server_name.as_str().as_bytes());
    put(out, "SERVER_PORT", c.server_port.as_str().as_bytes());
    put(out, "REMOTE_ADDR", c.remote_addr.as_str().as_bytes());
    put(out, "GATEWAY_INTERFACE", "CGI/1.1".as_bytes());
    let https: &str = if r.https {
        "on"
    } else {
        ""
    };
    put(out, "HTTPS", https.as_bytes());
    let auth_type: String = match find_line(r.headers.as_slice(), "authorization") {
        Some(i) => {
            let text = lossy_text(r.headers[i].1.as_slice());
            word_of(text.as_str())
        },
        None => copy_text(""),
    };
    put(out, "AUTH_TYPE", auth_type.as_str().as_bytes());
    assert(lines(out@) =~= lines(old(out)@) + gateway_variables(*r, *c));
}

fn put_optional(out: &mut FieldLines, r: &Request, c: &ReqC, auth_user: Option<&[u8]>)
    ensures
        lines(final(out)@) == lines(old(out)@) + optional_variables(
            *r,
            *c,
            match auth_user {
                Some(u) => Some(u@),
                None => None,
            },
        ),
{
    if let Some(user) = auth_user {
        let text = lossy_text(user);
        put(out, "REMOTE_USER", text.as_str().as_bytes());
    }
    if let Some(ctype) = &c.ctype {
        put(out, "CONTENT_TYPE", ctype.as_slice());
    }
    if r.content_length >= 0 {
        let length = crate::cgi::decimal_text(r.content_length as u64);
        put(out, "CONTENT_LENGTH", length.as_str().as_bytes());
    }
    assert(lines(out@) =~= lines(old(out)@) + optional_variables(
        *r,
        *c,
        match auth_user {
            Some(u) => Some(u@),
            None => None,
        },
    ));
}

} // verus!
