//! What a script finds in its `$_SERVER` table, name by name.

use vstd::prelude::*;
use vstd::utf8::{encode_utf8, is_ascii_chars, is_ascii_chars_encode_utf8};
use crate::cgi::{crossing, environment, first_value, has_nul, ReqC};
use crate::fields::{lines, Line};
use crate::fold::{each_name_once, first_seen, folded, merged, occurs};
use crate::front::FrontRequest;
use crate::runtime::{maps_request, query_of, ScriptVars};
use crate::sapi::{informs, RequestInfo};
use crate::server_vars::{
    before_query, cgi_char, configured_variables, document_variables, first_text_word,
    fixed_variables, gateway_variables, header_variable, header_variables, optional_variables,
    registered, script_variables, server_variables, upto_white,
};
use crate::text::{decimal, lossy, same_name, white_space};
use crate::types::{Addr, MultipartBody, Request};

verus! {

/// The value that a table gives for a name: the last line with that name counts.
pub open spec fn looked_up(table: Seq<Line>, name: Seq<char>) -> Option<Seq<u8>>
    decreases table.len(),
{
    if table.len() == 0 {
        None
    } else if table.last().0 == name {
        Some(table.last().1)
    } else {
        looked_up(table.drop_last(), name)
    }
}

/// A table tells a value under a name: byte for byte, or empty where it holds a
/// NUL byte.
pub open spec fn tells(table: Seq<Line>, name: Seq<char>, value: Seq<u8>) -> bool {
    looked_up(table, name) == Some(
        if exists|i: int| 0 <= i < value.len() && #[trigger] value[i] == 0 {
            Seq::<u8>::empty()
        } else {
            value
        },
    )
}

/// No configured variable has a name.
pub open spec fn unconfigured(r: Request, name: Seq<char>) -> bool {
    forall|i: int| 0 <= i < r.server_vars@.len() ==> (#[trigger] r.server_vars@[i]).0@ != name
}

/// The last line with a name is the one that is found.
proof fn lemma_found(t: Seq<Line>, i: int, name: Seq<char>)
    requires
        0 <= i < t.len(),
        t[i].0 == name,
        forall|j: int| i < j < t.len() ==> (#[trigger] t[j]).0 != name,
    ensures
        looked_up(t, name) == Some(t[i].1),
    decreases t.len(),
{
    if i < t.len() - 1 {
        assert(t[t.len() - 1].0 != name);
        lemma_found(t.drop_last(), i, name);
    }
}

/// A name that no line has is not found.
proof fn lemma_missing(t: Seq<Line>, name: Seq<char>)
    requires
        forall|j: int| 0 <= j < t.len() ==> (#[trigger] t[j]).0 != name,
    ensures
        looked_up(t, name) is None,
    decreases t.len(),
{
    if t.len() > 0 {
        assert(t[t.len() - 1].0 != name);
        lemma_missing(t.drop_last(), name);
    }
}

/// A name of plain ASCII characters, none of them NUL.
pub open spec fn plain_name(name: Seq<char>) -> bool {
    name.len() > 0 && forall|i: int|
        0 <= i < name.len() ==> '\u{1}' <= #[trigger] name[i] && name[i] <= '\u{7f}'
}

/// The names that header fields are registered under start with `HTTP_`.
pub open spec fn header_named(name: Seq<char>) -> bool {
    name.len() >= 5 && name[0] == 'H' && name[1] == 'T' && name[2] == 'T' && name[3] == 'P'
        && name[4] == '_'
}

/// A plain name is registered as it is.
proof fn lemma_plain(name: Seq<char>)
    requires
        plain_name(name),
    ensures
        forall|value: Seq<u8>| (#[trigger] registered(name, value)).0 == name,
{
    assert(is_ascii_chars(name));
    is_ascii_chars_encode_utf8(name);
    assert forall|i: int| 0 <= i < encode_utf8(name).len() implies encode_utf8(name)[i] != 0 by {
        assert(name[i] as u8 == encode_utf8(name)[i]);
    }
}

/// The later part of a table wins.
proof fn lemma_looked_up_add(a: Seq<Line>, b: Seq<Line>, name: Seq<char>)
    ensures
        looked_up(a + b, name) == if looked_up(b, name) is Some {
            looked_up(b, name)
        } else {
            looked_up(a, name)
        },
    decreases b.len(),
{
    if b.len() == 0 {
        assert(a + b =~= a);
    } else {
        lemma_looked_up_add(a, b.drop_last(), name);
        assert((a + b).drop_last() =~= a + b.drop_last());
    }
}

/// Names of one length differ too.
proof fn lemma_names_differ()
    ensures
        "DOCUMENT_URI"@ != "REMOTE_IDENT"@,
        "DOCUMENT_URI"@ != "QUERY_STRING"@,
        "DOCUMENT_URI"@ != "CONTENT_TYPE"@,
        "REQUEST_SCHEME"@ != "REQUEST_METHOD"@,
        "REQUEST_SCHEME"@ != "CONTENT_LENGTH"@,
        "REMOTE_HOST"@ != "REMOTE_PORT"@,
        "REMOTE_HOST"@ != "REQUEST_URI"@,
        "REMOTE_HOST"@ != "SCRIPT_NAME"@,
        "REMOTE_HOST"@ != "SERVER_NAME"@,
        "REMOTE_HOST"@ != "SERVER_PORT"@,
        "REMOTE_HOST"@ != "REMOTE_ADDR"@,
        "REMOTE_HOST"@ != "REMOTE_USER"@,
        "REMOTE_PORT"@ != "REQUEST_URI"@,
        "REMOTE_PORT"@ != "SCRIPT_NAME"@,
        "REMOTE_PORT"@ != "SERVER_NAME"@,
        "REMOTE_PORT"@ != "SERVER_PORT"@,
        "REMOTE_PORT"@ != "REMOTE_ADDR"@,
        "REMOTE_PORT"@ != "REMOTE_USER"@,
        "REMOTE_IDENT"@ != "QUERY_STRING"@,
        "REMOTE_IDENT"@ != "CONTENT_TYPE"@,
        "REQUEST_METHOD"@ != "CONTENT_LENGTH"@,
        "REQUEST_URI"@ != "SCRIPT_NAME"@,
        "REQUEST_URI"@ != "SERVER_NAME"@,
        "REQUEST_URI"@ != "SERVER_PORT"@,
        "REQUEST_URI"@ != "REMOTE_ADDR"@,
        "REQUEST_URI"@ != "REMOTE_USER"@,
        "QUERY_STRING"@ != "CONTENT_TYPE"@,
        "SCRIPT_FILENAME"@ != "SERVER_PROTOCOL"@,
        "SCRIPT_FILENAME"@ != "SERVER_SOFTWARE"@,
        "SCRIPT_NAME"@ != "SERVER_NAME"@,
        "SCRIPT_NAME"@ != "SERVER_PORT"@,
        "SCRIPT_NAME"@ != "REMOTE_ADDR"@,
        "SCRIPT_NAME"@ != "REMOTE_USER"@,
        "SERVER_PROTOCOL"@ != "SERVER_SOFTWARE"@,
        "SERVER_NAME"@ != "SERVER_PORT"@,
        "SERVER_NAME"@ != "REMOTE_ADDR"@,
        "SERVER_NAME"@ != "REMOTE_USER"@,
        "SERVER_PORT"@ != "REMOTE_ADDR"@,
        "SERVER_PORT"@ != "REMOTE_USER"@,
        "REMOTE_ADDR"@ != "REMOTE_USER"@,
{
    reveal_strlit("DOCUMENT_URI");
    reveal_strlit("REQUEST_SCHEME");
    reveal_strlit("REMOTE_HOST");
    reveal_strlit("REMOTE_PORT");
    reveal_strlit("REMOTE_IDENT");
    reveal_strlit("REQUEST_METHOD");
    reveal_strlit("REQUEST_URI");
    reveal_strlit("QUERY_STRING");
    reveal_strlit("SCRIPT_FILENAME");
    reveal_strlit("SCRIPT_NAME");
    reveal_strlit("SERVER_PROTOCOL");
    reveal_strlit("SERVER_SOFTWARE");
    reveal_strlit("SERVER_NAME");
    reveal_strlit("SERVER_PORT");
    reveal_strlit("REMOTE_ADDR");
    reveal_strlit("REMOTE_USER");
    reveal_strlit("CONTENT_TYPE");
    reveal_strlit("CONTENT_LENGTH");
    assert("DOCUMENT_URI"@[0] != "REMOTE_IDENT"@[0]);
    assert("DOCUMENT_URI"@[0] != "QUERY_STRING"@[0]);
    assert("DOCUMENT_URI"@[0] != "CONTENT_TYPE"@[0]);
    assert("REQUEST_SCHEME"@[8] != "REQUEST_METHOD"@[8]);
    assert("REQUEST_SCHEME"@[0] != "CONTENT_LENGTH"@[0]);
    assert("REMOTE_HOST"@[7] != "REMOTE_PORT"@[7]);
    assert("REMOTE_HOST"@[2] != "REQUEST_URI"@[2]);
    assert("REMOTE_HOST"@[0] != "SCRIPT_NAME"@[0]);
    assert("REMOTE_HOST"@[0] != "SERVER_NAME"@[0]);
    assert("REMOTE_HOST"@[0] != "SERVER_PORT"@[0]);
    assert("REMOTE_HOST"@[7] != "REMOTE_ADDR"@[7]);
    assert("REMOTE_HOST"@[7] != "REMOTE_USER"@[7]);
    assert("REMOTE_PORT"@[2] != "REQUEST_URI"@[2]);
    assert("REMOTE_PORT"@[0] != "SCRIPT_NAME"@[0]);
    assert("REMOTE_PORT"@[0] != "SERVER_NAME"@[0]);
    assert("REMOTE_PORT"@[0] != "SERVER_PORT"@[0]);
    assert("REMOTE_PORT"@[7] != "REMOTE_ADDR"@[7]);
    assert("REMOTE_PORT"@[7] != "REMOTE_USER"@[7]);
    assert("REMOTE_IDENT"@[0] != "QUERY_STRING"@[0]);
    assert("REMOTE_IDENT"@[0] != "CONTENT_TYPE"@[0]);
    assert("REQUEST_METHOD"@[0] != "CONTENT_LENGTH"@[0]);
    assert("REQUEST_URI"@[0] != "SCRIPT_NAME"@[0]);
    assert("REQUEST_URI"@[0] != "SERVER_NAME"@[0]);
    assert("REQUEST_URI"@[0] != "SERVER_PORT"@[0]);
    assert("REQUEST_URI"@[2] != "REMOTE_ADDR"@[2]);
    assert("REQUEST_URI"@[2] != "REMOTE_USER"@[2]);
    assert("QUERY_STRING"@[0] != "CONTENT_TYPE"@[0]);
    assert("SCRIPT_FILENAME"@[1] != "SERVER_PROTOCOL"@[1]);
    assert("SCRIPT_FILENAME"@[1] != "SERVER_SOFTWARE"@[1]);
    assert("SCRIPT_NAME"@[1] != "SERVER_NAME"@[1]);
    assert("SCRIPT_NAME"@[1] != "SERVER_PORT"@[1]);
    assert("SCRIPT_NAME"@[0] != "REMOTE_ADDR"@[0]);
    assert("SCRIPT_NAME"@[0] != "REMOTE_USER"@[0]);
    assert("SERVER_PROTOCOL"@[7] != "SERVER_SOFTWARE"@[7]);
    assert("SERVER_NAME"@[7] != "SERVER_PORT"@[7]);
    assert("SERVER_NAME"@[0] != "REMOTE_ADDR"@[0]);
    assert("SERVER_NAME"@[0] != "REMOTE_USER"@[0]);
    assert("SERVER_PORT"@[0] != "REMOTE_ADDR"@[0]);
    assert("SERVER_PORT"@[0] != "REMOTE_USER"@[0]);
    assert("REMOTE_ADDR"@[7] != "REMOTE_USER"@[7]);
}

/// What is found among the variables about the document and the peer.
proof fn lemma_document_values(r: Request, c: ReqC)
    ensures
        ({
            let t = document_variables(r, c);
            &&& tells(t, "PHP_SELF"@, encode_utf8(r.script_name@))
            &&& tells(t, "DOCUMENT_URI"@, encode_utf8(before_query(r.uri@)))
            &&& tells(t, "DOCUMENT_ROOT"@, encode_utf8(r.document_root@))
            &&& tells(
                t,
                "REQUEST_SCHEME"@,
                if r.https {
                    encode_utf8("https"@)
                } else {
                    encode_utf8("http"@)
                },
            )
            &&& tells(t, "REMOTE_HOST"@, encode_utf8(c.remote_addr@))
            &&& tells(t, "REMOTE_PORT"@, encode_utf8(c.remote_port@))
            &&& tells(t, "REMOTE_IDENT"@, encode_utf8(""@))
            &&& looked_up(t, "REQUEST_METHOD"@) is None
            &&& looked_up(t, "REQUEST_URI"@) is None
            &&& looked_up(t, "QUERY_STRING"@) is None
            &&& looked_up(t, "SCRIPT_FILENAME"@) is None
            &&& looked_up(t, "SCRIPT_NAME"@) is None
            &&& looked_up(t, "SERVER_PROTOCOL"@) is None
            &&& looked_up(t, "SERVER_SOFTWARE"@) is None
            &&& looked_up(t, "SERVER_NAME"@) is None
            &&& looked_up(t, "SERVER_PORT"@) is None
            &&& looked_up(t, "REMOTE_ADDR"@) is None
            &&& looked_up(t, "GATEWAY_INTERFACE"@) is None
            &&& looked_up(t, "HTTPS"@) is None
            &&& looked_up(t, "AUTH_TYPE"@) is None
            &&& looked_up(t, "REMOTE_USER"@) is None
            &&& looked_up(t, "CONTENT_TYPE"@) is None
            &&& looked_up(t, "CONTENT_LENGTH"@) is None
        }),
{
    let t = document_variables(r, c);
    lemma_names_differ();
    reveal_strlit("PHP_SELF");
    reveal_strlit("DOCUMENT_URI");
    reveal_strlit("DOCUMENT_ROOT");
    reveal_strlit("REQUEST_SCHEME");
    reveal_strlit("REMOTE_HOST");
    reveal_strlit("REMOTE_PORT");
    reveal_strlit("REMOTE_IDENT");
    reveal_strlit("REQUEST_METHOD");
    reveal_strlit("REQUEST_URI");
    reveal_strlit("QUERY_STRING");
    reveal_strlit("SCRIPT_FILENAME");
    reveal_strlit("SCRIPT_NAME");
    reveal_strlit("SERVER_PROTOCOL");
    reveal_strlit("SERVER_SOFTWARE");
    reveal_strlit("SERVER_NAME");
    reveal_strlit("SERVER_PORT");
    reveal_strlit("REMOTE_ADDR");
    reveal_strlit("GATEWAY_INTERFACE");
    reveal_strlit("HTTPS");
    reveal_strlit("AUTH_TYPE");
    reveal_strlit("REMOTE_USER");
    reveal_strlit("CONTENT_TYPE");
    reveal_strlit("CONTENT_LENGTH");
    lemma_plain("PHP_SELF"@);
    lemma_plain("DOCUMENT_URI"@);
    lemma_plain("DOCUMENT_ROOT"@);
    lemma_plain("REQUEST_SCHEME"@);
    lemma_plain("REMOTE_HOST"@);
    lemma_plain("REMOTE_PORT"@);
    lemma_plain("REMOTE_IDENT"@);
    assert(t[0].0 == "PHP_SELF"@);
    assert(t[1].0 == "DOCUMENT_URI"@);
    assert(t[2].0 == "DOCUMENT_ROOT"@);
    assert(t[3].0 == "REQUEST_SCHEME"@);
    assert(t[4].0 == "REMOTE_HOST"@);
    assert(t[5].0 == "REMOTE_PORT"@);
    assert(t[6].0 == "REMOTE_IDENT"@);
    lemma_found(t, 0, "PHP_SELF"@);
    lemma_found(t, 1, "DOCUMENT_URI"@);
    lemma_found(t, 2, "DOCUMENT_ROOT"@);
    lemma_found(t, 3, "REQUEST_SCHEME"@);
    lemma_found(t, 4, "REMOTE_HOST"@);
    lemma_found(t, 5, "REMOTE_PORT"@);
    lemma_found(t, 6, "REMOTE_IDENT"@);
    lemma_missing(t, "REQUEST_METHOD"@);
    lemma_missing(t, "REQUEST_URI"@);
    lemma_missing(t, "QUERY_STRING"@);
    lemma_missing(t, "SCRIPT_FILENAME"@);
    lemma_missing(t, "SCRIPT_NAME"@);
    lemma_missing(t, "SERVER_PROTOCOL"@);
    lemma_missing(t, "SERVER_SOFTWARE"@);
    lemma_missing(t, "SERVER_NAME"@);
    lemma_missing(t, "SERVER_PORT"@);
    lemma_missing(t, "REMOTE_ADDR"@);
    lemma_missing(t, "GATEWAY_INTERFACE"@);
    lemma_missing(t, "HTTPS"@);
    lemma_missing(t, "AUTH_TYPE"@);
    lemma_missing(t, "REMOTE_USER"@);
    lemma_missing(t, "CONTENT_TYPE"@);
    lemma_missing(t, "CONTENT_LENGTH"@);
}

/// What is found among the variables about the request line and the script.
proof fn lemma_script_values(r: Request, c: ReqC)
    ensures
        ({
            let t = script_variables(r, c);
            &&& looked_up(t, "PHP_SELF"@) is None
            &&& looked_up(t, "DOCUMENT_URI"@) is None
            &&& looked_up(t, "DOCUMENT_ROOT"@) is None
            &&& looked_up(t, "REQUEST_SCHEME"@) is None
            &&& looked_up(t, "REMOTE_HOST"@) is None
            &&& looked_up(t, "REMOTE_PORT"@) is None
            &&& looked_up(t, "REMOTE_IDENT"@) is None
            &&& tells(t, "REQUEST_METHOD"@, c.method@)
            &&& tells(t, "REQUEST_URI"@, c.uri@)
            &&& tells(t, "QUERY_STRING"@, c.query@)
            &&& tells(t, "SCRIPT_FILENAME"@, c.script@)
            &&& tells(t, "SCRIPT_NAME"@, encode_utf8(r.script_name@))
            &&& tells(t, "SERVER_PROTOCOL"@, encode_utf8(r.protocol@))
            &&& tells(t, "SERVER_SOFTWARE"@, encode_utf8("Rapira"@))
            &&& looked_up(t, "SERVER_NAME"@) is None
            &&& looked_up(t, "SERVER_PORT"@) is None
            &&& looked_up(t, "REMOTE_ADDR"@) is None
            &&& looked_up(t, "GATEWAY_INTERFACE"@) is None
            &&& looked_up(t, "HTTPS"@) is None
            &&& looked_up(t, "AUTH_TYPE"@) is None
            &&& looked_up(t, "REMOTE_USER"@) is None
            &&& looked_up(t, "CONTENT_TYPE"@) is None
            &&& looked_up(t, "CONTENT_LENGTH"@) is None
        }),
{
    let t = script_variables(r, c);
    lemma_names_differ();
    reveal_strlit("PHP_SELF");
    reveal_strlit("DOCUMENT_URI");
    reveal_strlit("DOCUMENT_ROOT");
    reveal_strlit("REQUEST_SCHEME");
    reveal_strlit("REMOTE_HOST");
    reveal_strlit("REMOTE_PORT");
    reveal_strlit("REMOTE_IDENT");
    reveal_strlit("REQUEST_METHOD");
    reveal_strlit("REQUEST_URI");
    reveal_strlit("QUERY_STRING");
    reveal_strlit("SCRIPT_FILENAME");
    reveal_strlit("SCRIPT_NAME");
    reveal_strlit("SERVER_PROTOCOL");
    reveal_strlit("SERVER_SOFTWARE");
    reveal_strlit("SERVER_NAME");
    reveal_strlit("SERVER_PORT");
    reveal_strlit("REMOTE_ADDR");
    reveal_strlit("GATEWAY_INTERFACE");
    reveal_strlit("HTTPS");
    reveal_strlit("AUTH_TYPE");
    reveal_strlit("REMOTE_USER");
    reveal_strlit("CONTENT_TYPE");
    reveal_strlit("CONTENT_LENGTH");
    lemma_plain("REQUEST_METHOD"@);
    lemma_plain("REQUEST_URI"@);
    lemma_plain("QUERY_STRING"@);
    lemma_plain("SCRIPT_FILENAME"@);
    lemma_plain("SCRIPT_NAME"@);
    lemma_plain("SERVER_PROTOCOL"@);
    lemma_plain("SERVER_SOFTWARE"@);
    assert(t[0].0 == "REQUEST_METHOD"@);
    assert(t[1].0 == "REQUEST_URI"@);
    assert(t[2].0 == "QUERY_STRING"@);
    assert(t[3].0 == "SCRIPT_FILENAME"@);
    assert(t[4].0 == "SCRIPT_NAME"@);
    assert(t[5].0 == "SERVER_PROTOCOL"@);
    assert(t[6].0 == "SERVER_SOFTWARE"@);
    lemma_found(t, 0, "REQUEST_METHOD"@);
    lemma_found(t, 1, "REQUEST_URI"@);
    lemma_found(t, 2, "QUERY_STRING"@);
    lemma_found(t, 3, "SCRIPT_FILENAME"@);
    lemma_found(t, 4, "SCRIPT_NAME"@);
    lemma_found(t, 5, "SERVER_PROTOCOL"@);
    lemma_found(t, 6, "SERVER_SOFTWARE"@);
    lemma_missing(t, "PHP_SELF"@);
    lemma_missing(t, "DOCUMENT_URI"@);
    lemma_missing(t, "DOCUMENT_ROOT"@);
    lemma_missing(t, "REQUEST_SCHEME"@);
    lemma_missing(t, "REMOTE_HOST"@);
    lemma_missing(t, "REMOTE_PORT"@);
    lemma_missing(t, "REMOTE_IDENT"@);
    lemma_missing(t, "SERVER_NAME"@);
    lemma_missing(t, "SERVER_PORT"@);
    lemma_missing(t, "REMOTE_ADDR"@);
    lemma_missing(t, "GATEWAY_INTERFACE"@);
    lemma_missing(t, "HTTPS"@);
    lemma_missing(t, "AUTH_TYPE"@);
    lemma_missing(t, "REMOTE_USER"@);
    lemma_missing(t, "CONTENT_TYPE"@);
    lemma_missing(t, "CONTENT_LENGTH"@);
}

/// What is found among the variables about the server and the authentication scheme.
proof fn lemma_gateway_values(r: Request, c: ReqC)
    ensures
        ({
            let t = gateway_variables(r, c);
            &&& looked_up(t, "PHP_SELF"@) is None
            &&& looked_up(t, "DOCUMENT_URI"@) is None
            &&& looked_up(t, "DOCUMENT_ROOT"@) is None
            &&& looked_up(t, "REQUEST_SCHEME"@) is None
            &&& looked_up(t, "REMOTE_HOST"@) is None
            &&& looked_up(t, "REMOTE_PORT"@) is None
            &&& looked_up(t, "REMOTE_IDENT"@) is None
            &&& looked_up(t, "REQUEST_METHOD"@) is None
            &&& looked_up(t, "REQUEST_URI"@) is None
            &&& looked_up(t, "QUERY_STRING"@) is None
            &&& looked_up(t, "SCRIPT_FILENAME"@) is None
            &&& looked_up(t, "SCRIPT_NAME"@) is None
            &&& looked_up(t, "SERVER_PROTOCOL"@) is None
            &&& looked_up(t, "SERVER_SOFTWARE"@) is None
            &&& tells(t, "SERVER_NAME"@, encode_utf8(r.server_name@))
            &&& tells(t, "SERVER_PORT"@, encode_utf8(c.server_port@))
            &&& tells(t, "REMOTE_ADDR"@, encode_utf8(c.remote_addr@))
            &&& tells(t, "GATEWAY_INTERFACE"@, encode_utf8("CGI/1.1"@))
            &&& tells(
                t,
                "HTTPS"@,
                if r.https {
                    encode_utf8("on"@)
                } else {
                    encode_utf8(""@)
                },
            )
            &&& tells(
                t,
                "AUTH_TYPE"@,
                match first_value(lines(r.headers@), "authorization"@) {
                    Some(v) => encode_utf8(first_text_word(lossy(v))),
                    None => encode_utf8(""@),
                },
            )
            &&& looked_up(t, "REMOTE_USER"@) is None
            &&& looked_up(t, "CONTENT_TYPE"@) is None
            &&& looked_up(t, "CONTENT_LENGTH"@) is None
        }),
{
    let t = gateway_variables(r, c);
    lemma_names_differ();
    reveal_strlit("PHP_SELF");
    reveal_strlit("DOCUMENT_URI");
    reveal_strlit("DOCUMENT_ROOT");
    reveal_strlit("REQUEST_SCHEME");
    reveal_strlit("REMOTE_HOST");
    reveal_strlit("REMOTE_PORT");
    reveal_strlit("REMOTE_IDENT");
    reveal_strlit("REQUEST_METHOD");
    reveal_strlit("REQUEST_URI");
    reveal_strlit("QUERY_STRING");
    reveal_strlit("SCRIPT_FILENAME");
    reveal_strlit("SCRIPT_NAME");
    reveal_strlit("SERVER_PROTOCOL");
    reveal_strlit("SERVER_SOFTWARE");
    reveal_strlit("SERVER_NAME");
    reveal_strlit("SERVER_PORT");
    reveal_strlit("REMOTE_ADDR");
    reveal_strlit("GATEWAY_INTERFACE");
    reveal_strlit("HTTPS");
    reveal_strlit("AUTH_TYPE");
    reveal_strlit("REMOTE_USER");
    reveal_strlit("CONTENT_TYPE");
    reveal_strlit("CONTENT_LENGTH");
    lemma_plain("SERVER_NAME"@);
    lemma_plain("SERVER_PORT"@);
    lemma_plain("REMOTE_ADDR"@);
    lemma_plain("GATEWAY_INTERFACE"@);
    lemma_plain("HTTPS"@);
    lemma_plain("AUTH_TYPE"@);
    assert(t[0].0 == "SERVER_NAME"@);
    assert(t[1].0 == "SERVER_PORT"@);
    assert(t[2].0 == "REMOTE_ADDR"@);
    assert(t[3].0 == "GATEWAY_INTERFACE"@);
    assert(t[4].0 == "HTTPS"@);
    assert(t[5].0 == "AUTH_TYPE"@);
    lemma_found(t, 0, "SERVER_NAME"@);
    lemma_found(t, 1, "SERVER_PORT"@);
    lemma_found(t, 2, "REMOTE_ADDR"@);
    lemma_found(t, 3, "GATEWAY_INTERFACE"@);
    lemma_found(t, 4, "HTTPS"@);
    lemma_found(t, 5, "AUTH_TYPE"@);
    lemma_missing(t, "PHP_SELF"@);
    lemma_missing(t, "DOCUMENT_URI"@);
    lemma_missing(t, "DOCUMENT_ROOT"@);
    lemma_missing(t, "REQUEST_SCHEME"@);
    lemma_missing(t, "REMOTE_HOST"@);
    lemma_missing(t, "REMOTE_PORT"@);
    lemma_missing(t, "REMOTE_IDENT"@);
    lemma_missing(t, "REQUEST_METHOD"@);
    lemma_missing(t, "REQUEST_URI"@);
    lemma_missing(t, "QUERY_STRING"@);
    lemma_missing(t, "SCRIPT_FILENAME"@);
    lemma_missing(t, "SCRIPT_NAME"@);
    lemma_missing(t, "SERVER_PROTOCOL"@);
    lemma_missing(t, "SERVER_SOFTWARE"@);
    lemma_missing(t, "REMOTE_USER"@);
    lemma_missing(t, "CONTENT_TYPE"@);
    lemma_missing(t, "CONTENT_LENGTH"@);
}

/// What is found among the variables that only some requests have.
proof fn lemma_optional_values(r: Request, c: ReqC, user: Option<Seq<u8>>)
    ensures
        ({
            let t = optional_variables(r, c, user);
            &&& looked_up(t, "PHP_SELF"@) is None
            &&& looked_up(t, "DOCUMENT_URI"@) is None
            &&& looked_up(t, "DOCUMENT_ROOT"@) is None
            &&& looked_up(t, "REQUEST_SCHEME"@) is None
            &&& looked_up(t, "REMOTE_HOST"@) is None
            &&& looked_up(t, "REMOTE_PORT"@) is None
            &&& looked_up(t, "REMOTE_IDENT"@) is None
            &&& looked_up(t, "REQUEST_METHOD"@) is None
            &&& looked_up(t, "REQUEST_URI"@) is None
            &&& looked_up(t, "QUERY_STRING"@) is None
            &&& looked_up(t, "SCRIPT_FILENAME"@) is None
            &&& looked_up(t, "SCRIPT_NAME"@) is None
            &&& looked_up(t, "SERVER_PROTOCOL"@) is None
            &&& looked_up(t, "SERVER_SOFTWARE"@) is None
            &&& looked_up(t, "SERVER_NAME"@) is None
            &&& looked_up(t, "SERVER_PORT"@) is None
            &&& looked_up(t, "REMOTE_ADDR"@) is None
            &&& looked_up(t, "GATEWAY_INTERFACE"@) is None
            &&& looked_up(t, "HTTPS"@) is None
            &&& looked_up(t, "AUTH_TYPE"@) is None
            &&& match user {
                Some(u) => tells(t, "REMOTE_USER"@, encode_utf8(lossy(u))),
                None => looked_up(t, "REMOTE_USER"@) is None,
            }
            &&& match c.ctype {
                Some(v) => tells(t, "CONTENT_TYPE"@, v@),
                None => looked_up(t, "CONTENT_TYPE"@) is None,
            }
            &&& if r.content_length >= 0 {
                tells(t, "CONTENT_LENGTH"@, encode_utf8(decimal(r.content_length as nat)))
            } else {
                looked_up(t, "CONTENT_LENGTH"@) is None
            }
        }),
{
    let t = optional_variables(r, c, user);
    lemma_names_differ();
    reveal_strlit("PHP_SELF");
    reveal_strlit("DOCUMENT_URI");
    reveal_strlit("DOCUMENT_ROOT");
    reveal_strlit("REQUEST_SCHEME");
    reveal_strlit("REMOTE_HOST");
    reveal_strlit("REMOTE_PORT");
    reveal_strlit("REMOTE_IDENT");
    reveal_strlit("REQUEST_METHOD");
    reveal_strlit("REQUEST_URI");
    reveal_strlit("QUERY_STRING");
    reveal_strlit("SCRIPT_FILENAME");
    reveal_strlit("SCRIPT_NAME");
    reveal_strlit("SERVER_PROTOCOL");
    reveal_strlit("SERVER_SOFTWARE");
    reveal_strlit("SERVER_NAME");
    reveal_strlit("SERVER_PORT");
    reveal_strlit("REMOTE_ADDR");
    reveal_strlit("GATEWAY_INTERFACE");
    reveal_strlit("HTTPS");
    reveal_strlit("AUTH_TYPE");
    reveal_strlit("REMOTE_USER");
    reveal_strlit("CONTENT_TYPE");
    reveal_strlit("CONTENT_LENGTH");
    lemma_plain("REMOTE_USER"@);
    lemma_plain("CONTENT_TYPE"@);
    lemma_plain("CONTENT_LENGTH"@);
    lemma_missing(t, "PHP_SELF"@);
    lemma_missing(t, "DOCUMENT_URI"@);
    lemma_missing(t, "DOCUMENT_ROOT"@);
    lemma_missing(t, "REQUEST_SCHEME"@);
    lemma_missing(t, "REMOTE_HOST"@);
    lemma_missing(t, "REMOTE_PORT"@);
    lemma_missing(t, "REMOTE_IDENT"@);
    lemma_missing(t, "REQUEST_METHOD"@);
    lemma_missing(t, "REQUEST_URI"@);
    lemma_missing(t, "QUERY_STRING"@);
    lemma_missing(t, "SCRIPT_FILENAME"@);
    lemma_missing(t, "SCRIPT_NAME"@);
    lemma_missing(t, "SERVER_PROTOCOL"@);
    lemma_missing(t, "SERVER_SOFTWARE"@);
    lemma_missing(t, "SERVER_NAME"@);
    lemma_missing(t, "SERVER_PORT"@);
    lemma_missing(t, "REMOTE_ADDR"@);
    lemma_missing(t, "GATEWAY_INTERFACE"@);
    lemma_missing(t, "HTTPS"@);
    lemma_missing(t, "AUTH_TYPE"@);
    let at: int = if user is Some {
        1
    } else {
        0
    };
    let next: int = if c.ctype is Some {
        at + 1
    } else {
        at
    };
    if user is Some {
        assert(t[0].0 == "REMOTE_USER"@);
        lemma_found(t, 0, "REMOTE_USER"@);
    } else {
        lemma_missing(t, "REMOTE_USER"@);
    }
    if c.ctype is Some {
        assert(t[at].0 == "CONTENT_TYPE"@);
        lemma_found(t, at, "CONTENT_TYPE"@);
    } else {
        lemma_missing(t, "CONTENT_TYPE"@);
    }
    if r.content_length >= 0 {
        assert(t[next].0 == "CONTENT_LENGTH"@);
        lemma_found(t, next, "CONTENT_LENGTH"@);
    } else {
        lemma_missing(t, "CONTENT_LENGTH"@);
    }
}

/// Header fields and configured variables leave the other names alone.
proof fn lemma_whole(r: Request, c: ReqC, user: Option<Seq<u8>>, name: Seq<char>)
    requires
        name.len() > 0,
        !header_named(name),
        unconfigured(r, name),
    ensures
        looked_up(server_variables(r, c, user), name) == {
            let o = looked_up(optional_variables(r, c, user), name);
            let g = looked_up(gateway_variables(r, c), name);
            let s = looked_up(script_variables(r, c), name);
            if o is Some {
                o
            } else if g is Some {
                g
            } else if s is Some {
                s
            } else {
                looked_up(document_variables(r, c), name)
            }
        },
{
    let d = document_variables(r, c);
    let s = script_variables(r, c);
    let g = gateway_variables(r, c);
    let o = optional_variables(r, c, user);
    let h = header_variables(lines(c.folded_headers@));
    let v = configured_variables(r.server_vars@);
    reveal_strlit("HTTP_");
    assert forall|j: int| 0 <= j < h.len() implies (#[trigger] h[j]).0 != name by {
        let field = lines(c.folded_headers@)[j].0;
        assert(header_named(header_variable(field)));
    }
    lemma_missing(h, name);
    assert forall|j: int| 0 <= j < v.len() implies (#[trigger] v[j]).0 != name by {
        assert(r.server_vars@[j].0@ != name);
    }
    lemma_missing(v, name);
    lemma_looked_up_add(d, s, name);
    lemma_looked_up_add(d + s, g, name);
    lemma_looked_up_add(d + s + g, o, name);
    lemma_looked_up_add(d + s + g + o, h, name);
    lemma_looked_up_add(d + s + g + o + h, v, name);
}

/// A script finds its request under the usual names, unless the configuration
/// says otherwise: the method, the target with its path and query, the script,
/// the protocol, both endpoints, the scheme, and what is known of the body.
pub proof fn the_table_tells_of_the_request(r: Request, c: ReqC, user: Option<Seq<u8>>)
    requires
        c.materializes(r),
    ensures
        ({
            let t = server_variables(r, c, user);
            &&& unconfigured(r, "REQUEST_METHOD"@) ==> tells(
                t,
                "REQUEST_METHOD"@,
                encode_utf8(r.method@),
            )
            &&& unconfigured(r, "REQUEST_URI"@) ==> tells(t, "REQUEST_URI"@, encode_utf8(r.uri@))
            &&& unconfigured(r, "QUERY_STRING"@) ==> tells(
                t,
                "QUERY_STRING"@,
                encode_utf8(r.query@),
            )
            &&& unconfigured(r, "SCRIPT_FILENAME"@) ==> tells(
                t,
                "SCRIPT_FILENAME"@,
                encode_utf8(lossy(r.script_filename@)),
            )
            &&& unconfigured(r, "SCRIPT_NAME"@) ==> tells(
                t,
                "SCRIPT_NAME"@,
                encode_utf8(r.script_name@),
            )
            &&& unconfigured(r, "PHP_SELF"@) ==> tells(t, "PHP_SELF"@, encode_utf8(r.script_name@))
            &&& unconfigured(r, "DOCUMENT_ROOT"@) ==> tells(
                t,
                "DOCUMENT_ROOT"@,
                encode_utf8(r.document_root@),
            )
            &&& unconfigured(r, "SERVER_PROTOCOL"@) ==> tells(
                t,
                "SERVER_PROTOCOL"@,
                encode_utf8(r.protocol@),
            )
            &&& unconfigured(r, "SERVER_SOFTWARE"@) ==> tells(
                t,
                "SERVER_SOFTWARE"@,
                encode_utf8("Rapira"@),
            )
            &&& unconfigured(r, "SERVER_NAME"@) ==> tells(
                t,
                "SERVER_NAME"@,
                encode_utf8(r.server_name@),
            )
            &&& unconfigured(r, "SERVER_PORT"@) ==> tells(
                t,
                "SERVER_PORT"@,
                encode_utf8(decimal(r.server_port as nat)),
            )
            &&& unconfigured(r, "GATEWAY_INTERFACE"@) ==> tells(
                t,
                "GATEWAY_INTERFACE"@,
                encode_utf8("CGI/1.1"@),
            )
            &&& unconfigured(r, "REMOTE_IDENT"@) ==> tells(t, "REMOTE_IDENT"@, encode_utf8(""@))
            &&& unconfigured(r, "HTTPS"@) ==> (r.https ==> tells(t, "HTTPS"@, encode_utf8("on"@)))
                && (!r.https ==> tells(t, "HTTPS"@, encode_utf8(""@)))
            &&& unconfigured(r, "REQUEST_SCHEME"@) ==> (r.https ==> tells(
                t,
                "REQUEST_SCHEME"@,
                encode_utf8("https"@),
            )) && (!r.https ==> tells(t, "REQUEST_SCHEME"@, encode_utf8("http"@)))
            &&& r.remote matches Addr::Inet { ip, port, .. } ==> {
                &&& unconfigured(r, "REMOTE_ADDR"@) ==> tells(t, "REMOTE_ADDR"@, encode_utf8(ip@))
                &&& unconfigured(r, "REMOTE_HOST"@) ==> tells(t, "REMOTE_HOST"@, encode_utf8(ip@))
                &&& unconfigured(r, "REMOTE_PORT"@) ==> tells(
                    t,
                    "REMOTE_PORT"@,
                    encode_utf8(decimal(port as nat)),
                )
            }
            &&& r.remote is Unix ==> {
                &&& unconfigured(r, "REMOTE_ADDR"@) ==> tells(t, "REMOTE_ADDR"@, encode_utf8(""@))
                &&& unconfigured(r, "REMOTE_HOST"@) ==> tells(t, "REMOTE_HOST"@, encode_utf8(""@))
                &&& unconfigured(r, "REMOTE_PORT"@) ==> tells(t, "REMOTE_PORT"@, encode_utf8("0"@))
            }
            &&& unconfigured(r, "CONTENT_TYPE"@) ==> match r.content_type {
                Some(v) => tells(t, "CONTENT_TYPE"@, v@),
                None => looked_up(t, "CONTENT_TYPE"@) is None,
            }
            &&& unconfigured(r, "CONTENT_LENGTH"@) ==> if r.content_length >= 0 {
                tells(t, "CONTENT_LENGTH"@, encode_utf8(decimal(r.content_length as nat)))
            } else {
                looked_up(t, "CONTENT_LENGTH"@) is None
            }
            &&& unconfigured(r, "REMOTE_USER"@) ==> match user {
                Some(u) => tells(t, "REMOTE_USER"@, encode_utf8(lossy(u))),
                None => looked_up(t, "REMOTE_USER"@) is None,
            }
        }),
{
    lemma_document_values(r, c);
    lemma_script_values(r, c);
    lemma_gateway_values(r, c);
    lemma_optional_values(r, c, user);
    reveal_strlit("PHP_SELF");
    reveal_strlit("DOCUMENT_URI");
    reveal_strlit("DOCUMENT_ROOT");
    reveal_strlit("REQUEST_SCHEME");
    reveal_strlit("REMOTE_HOST");
    reveal_strlit("REMOTE_PORT");
    reveal_strlit("REMOTE_IDENT");
    reveal_strlit("REQUEST_METHOD");
    reveal_strlit("REQUEST_URI");
    reveal_strlit("QUERY_STRING");
    reveal_strlit("SCRIPT_FILENAME");
    reveal_strlit("SCRIPT_NAME");
    reveal_strlit("SERVER_PROTOCOL");
    reveal_strlit("SERVER_SOFTWARE");
    reveal_strlit("SERVER_NAME");
    reveal_strlit("SERVER_PORT");
    reveal_strlit("REMOTE_ADDR");
    reveal_strlit("GATEWAY_INTERFACE");
    reveal_strlit("HTTPS");
    reveal_strlit("AUTH_TYPE");
    reveal_strlit("REMOTE_USER");
    reveal_strlit("CONTENT_TYPE");
    reveal_strlit("CONTENT_LENGTH");
    if unconfigured(r, "PHP_SELF"@) {
        lemma_whole(r, c, user, "PHP_SELF"@);
    }
    if unconfigured(r, "DOCUMENT_URI"@) {
        lemma_whole(r, c, user, "DOCUMENT_URI"@);
    }
    if unconfigured(r, "DOCUMENT_ROOT"@) {
        lemma_whole(r, c, user, "DOCUMENT_ROOT"@);
    }
    if unconfigured(r, "REQUEST_SCHEME"@) {
        lemma_whole(r, c, user, "REQUEST_SCHEME"@);
    }
    if unconfigured(r, "REMOTE_HOST"@) {
        lemma_whole(r, c, user, "REMOTE_HOST"@);
    }
    if unconfigured(r, "REMOTE_PORT"@) {
        lemma_whole(r, c, user, "REMOTE_PORT"@);
    }
    if unconfigured(r, "REMOTE_IDENT"@) {
        lemma_whole(r, c, user, "REMOTE_IDENT"@);
    }
    if unconfigured(r, "REQUEST_METHOD"@) {
        lemma_whole(r, c, user, "REQUEST_METHOD"@);
    }
    if unconfigured(r, "REQUEST_URI"@) {
        lemma_whole(r, c, user, "REQUEST_URI"@);
    }
    if unconfigured(r, "QUERY_STRING"@) {
        lemma_whole(r, c, user, "QUERY_STRING"@);
    }
    if unconfigured(r, "SCRIPT_FILENAME"@) {
        lemma_whole(r, c, user, "SCRIPT_FILENAME"@);
    }
    if unconfigured(r, "SCRIPT_NAME"@) {
        lemma_whole(r, c, user, "SCRIPT_NAME"@);
    }
    if unconfigured(r, "SERVER_PROTOCOL"@) {
        lemma_whole(r, c, user, "SERVER_PROTOCOL"@);
    }
    if unconfigured(r, "SERVER_SOFTWARE"@) {
        lemma_whole(r, c, user, "SERVER_SOFTWARE"@);
    }
    if unconfigured(r, "SERVER_NAME"@) {
        lemma_whole(r, c, user, "SERVER_NAME"@);
    }
    if unconfigured(r, "SERVER_PORT"@) {
        lemma_whole(r, c, user, "SERVER_PORT"@);
    }
    if unconfigured(r, "REMOTE_ADDR"@) {
        lemma_whole(r, c, user, "REMOTE_ADDR"@);
    }
    if unconfigured(r, "GATEWAY_INTERFACE"@) {
        lemma_whole(r, c, user, "GATEWAY_INTERFACE"@);
    }
    if unconfigured(r, "HTTPS"@) {
        lemma_whole(r, c, user, "HTTPS"@);
    }
    if unconfigured(r, "AUTH_TYPE"@) {
        lemma_whole(r, c, user, "AUTH_TYPE"@);
    }
    if unconfigured(r, "REMOTE_USER"@) {
        lemma_whole(r, c, user, "REMOTE_USER"@);
    }
    if unconfigured(r, "CONTENT_TYPE"@) {
        lemma_whole(r, c, user, "CONTENT_TYPE"@);
    }
    if unconfigured(r, "CONTENT_LENGTH"@) {
        lemma_whole(r, c, user, "CONTENT_LENGTH"@);
    }
}

/// The first question mark parts a target: the path is before it, the query
/// after it.
pub proof fn the_first_question_mark_parts_a_target(uri: Seq<char>, k: int)
    requires
        0 <= k <= uri.len(),
        forall|j: int| 0 <= j < k ==> #[trigger] uri[j] != '?',
        k < uri.len() ==> uri[k] == '?',
    ensures
        before_query(uri) == uri.take(k),
        query_of(uri) == if k < uri.len() {
            uri.skip(k + 1)
        } else {
            Seq::empty()
        },
    decreases k,
{
    if k == 0 {
        assert(uri.take(0) =~= Seq::empty());
        if uri.len() > 0 {
            assert(uri.drop_first() =~= uri.skip(1));
        }
    } else {
        let rest = uri.drop_first();
        assert(uri[0] != '?');
        assert forall|j: int| 0 <= j < k - 1 implies #[trigger] rest[j] != '?' by {
            assert(rest[j] == uri[j + 1]);
        }
        the_first_question_mark_parts_a_target(rest, k - 1);
        assert(seq![uri[0]] + rest.take(k - 1) =~= uri.take(k));
        if k < uri.len() {
            assert(rest.skip(k) =~= uri.skip(k + 1));
        }
    }
}

/// Every target has a place where it parts.
proof fn lemma_parts(uri: Seq<char>) -> (k: int)
    ensures
        0 <= k <= uri.len(),
        forall|j: int| 0 <= j < k ==> #[trigger] uri[j] != '?',
        k < uri.len() ==> uri[k] == '?',
    decreases uri.len(),
{
    if uri.len() == 0 || uri[0] == '?' {
        0
    } else {
        let rest = uri.drop_first();
        let k = lemma_parts(rest) + 1;
        assert forall|j: int| 0 <= j < k implies #[trigger] uri[j] != '?' by {
            if j > 0 {
                assert(uri[j] == rest[j - 1]);
            }
        }
        k
    }
}

/// Encoding goes part by part.
proof fn lemma_encode_add(a: Seq<char>, b: Seq<char>)
    ensures
        encode_utf8(a + b) == encode_utf8(a) + encode_utf8(b),
    decreases a.len(),
{
    if a.len() == 0 {
        assert(a + b =~= b);
        assert(encode_utf8(a) =~= Seq::empty());
        assert(encode_utf8(a) + encode_utf8(b) =~= encode_utf8(b));
    } else {
        assert((a + b).drop_first() =~= a.drop_first() + b);
        lemma_encode_add(a.drop_first(), b);
        assert(encode_utf8(a + b) =~= encode_utf8(a) + encode_utf8(b));
    }
}

/// What a script finds of a front's request as its target, its path and its
/// query fit together: the target is the path, then, after the first question
/// mark, the query; a target without one is all path.
pub proof fn a_target_is_its_path_and_query(
    f: FrontRequest,
    script: ScriptVars,
    parsed: Option<MultipartBody>,
    r: Request,
    c: ReqC,
    user: Option<Seq<u8>>,
)
    requires
        maps_request(r, f, script, parsed),
        c.materializes(r),
        forall|i: int|
            0 <= i < encode_utf8(f.uri@).len() ==> #[trigger] encode_utf8(f.uri@)[i] != 0,
    ensures
        ({
            let t = server_variables(r, c, user);
            let uri = looked_up(t, "REQUEST_URI"@);
            let path = looked_up(t, "DOCUMENT_URI"@);
            let query = looked_up(t, "QUERY_STRING"@);
            &&& uri == Some(encode_utf8(f.uri@))
            &&& path is Some && query is Some
            &&& !f.uri@.contains('?') ==> path == uri && query->0.len() == 0
            &&& f.uri@.contains('?') ==> uri->0 == path->0 + seq![0x3fu8] + query->0
            &&& f.uri@.contains('?') ==> exists|p: Seq<char>|
                !p.contains('?') && path == Some(#[trigger] encode_utf8(p))
        }),
{
    let t = server_variables(r, c, user);
    the_table_tells_of_the_request(r, c, user);
    lemma_document_values(r, c);
    lemma_script_values(r, c);
    lemma_gateway_values(r, c);
    lemma_optional_values(r, c, user);
    reveal_strlit("DOCUMENT_URI");
    lemma_whole(r, c, user, "DOCUMENT_URI"@);
    let k = lemma_parts(f.uri@);
    let uri = f.uri@;
    the_first_question_mark_parts_a_target(uri, k);
    let a = uri.take(k);
    if k < uri.len() {
        let q = seq!['?'];
        let b = uri.skip(k + 1);
        assert(uri =~= a + (q + b));
        lemma_encode_add(a, q + b);
        lemma_encode_add(q, b);
        assert(is_ascii_chars(q));
        is_ascii_chars_encode_utf8(q);
        assert(q[0] as u8 == 0x3f);
        assert(encode_utf8(q) =~= seq![0x3fu8]);
        let whole = encode_utf8(uri);
        assert(whole =~= encode_utf8(a) + seq![0x3fu8] + encode_utf8(b));
        assert forall|i: int| 0 <= i < encode_utf8(a).len() implies #[trigger] encode_utf8(a)[i]
            != 0 by {
            assert(whole[i] == encode_utf8(a)[i]);
        }
        assert forall|i: int| 0 <= i < encode_utf8(b).len() implies #[trigger] encode_utf8(b)[i]
            != 0 by {
            assert(whole[encode_utf8(a).len() + 1 + i] == encode_utf8(b)[i]);
        }
        assert(uri.contains('?'));
        assert(!a.contains('?')) by {
            if a.contains('?') {
                let j = choose|j: int| 0 <= j < a.len() && a[j] == '?';
                assert(uri[j] == '?');
            }
        }
    } else {
        assert(a =~= uri);
        assert(!uri.contains('?'));
        assert(encode_utf8(Seq::<char>::empty()) =~= Seq::empty());
    }
}

/// The words of a text: leading white space is skipped, and the first word goes
/// up to the next.
pub proof fn the_scheme_is_the_first_word(lead: Seq<char>, word: Seq<char>, rest: Seq<char>)
    requires
        forall|i: int| 0 <= i < lead.len() ==> white_space(#[trigger] lead[i]),
        forall|i: int| 0 <= i < word.len() ==> !white_space(#[trigger] word[i]),
        rest.len() > 0 ==> white_space(rest[0]) && word.len() > 0,
    ensures
        first_text_word(lead + word + rest) == word,
    decreases lead.len() + word.len(),
{
    let s = lead + word + rest;
    if lead.len() > 0 {
        assert(s[0] == lead[0]);
        assert(s.drop_first() =~= lead.drop_first() + word + rest);
        the_scheme_is_the_first_word(lead.drop_first(), word, rest);
    } else if word.len() > 0 {
        assert(s[0] == word[0]);
        assert(s =~= word + rest);
        lemma_upto_white(word, rest);
    } else {
        assert(s =~= Seq::empty());
        assert(first_text_word(s) =~= word);
    }
}

proof fn lemma_upto_white(word: Seq<char>, rest: Seq<char>)
    requires
        forall|i: int| 0 <= i < word.len() ==> !white_space(#[trigger] word[i]),
        rest.len() > 0 ==> white_space(rest[0]),
    ensures
        upto_white(word + rest) == word,
    decreases word.len(),
{
    let s = word + rest;
    if word.len() == 0 {
        assert(s =~= rest);
        assert(upto_white(s) =~= word);
    } else {
        assert(s[0] == word[0]);
        assert(s.drop_first() =~= word.drop_first() + rest);
        lemma_upto_white(word.drop_first(), rest);
        assert(seq![s[0]] + word.drop_first() =~= word);
    }
}

/// The authentication scheme is the first word of the first `Authorization`
/// line; it is empty where there is none.
pub proof fn the_table_tells_the_scheme(r: Request, c: ReqC, user: Option<Seq<u8>>, k: int)
    requires
        c.materializes(r),
        unconfigured(r, "AUTH_TYPE"@),
        0 <= k <= r.headers@.len(),
        forall|j: int|
            0 <= j < k ==> !same_name((#[trigger] r.headers@[j]).0@, "authorization"@),
        k < r.headers@.len() ==> same_name(r.headers@[k].0@, "authorization"@),
    ensures
        ({
            let t = server_variables(r, c, user);
            if k < r.headers@.len() {
                tells(t, "AUTH_TYPE"@, encode_utf8(first_text_word(lossy(r.headers@[k].1@))))
            } else {
                looked_up(t, "AUTH_TYPE"@) == Some(Seq::<u8>::empty())
            }
        }),
{
    lemma_gateway_values(r, c);
    lemma_optional_values(r, c, user);
    reveal_strlit("AUTH_TYPE");
    lemma_whole(r, c, user, "AUTH_TYPE"@);
    let h = lines(r.headers@);
    assert forall|j: int| 0 <= j < k implies !same_name(
        (#[trigger] h[j]).0,
        "authorization"@,
    ) by {
        assert(!same_name(r.headers@[j].0@, "authorization"@));
    }
    the_first_line_of_a_name_counts(h, "authorization"@, k);
    reveal_strlit("");
    assert(""@ =~= Seq::<char>::empty());
    assert(encode_utf8(""@) =~= Seq::empty());
}

/// Of several lines with one name, in whatever case, the first is the one that
/// is read.
pub proof fn the_first_line_of_a_name_counts(h: Seq<Line>, name: Seq<char>, k: int)
    requires
        0 <= k <= h.len(),
        forall|j: int| 0 <= j < k ==> !same_name((#[trigger] h[j]).0, name),
        k < h.len() ==> same_name(h[k].0, name),
    ensures
        first_value(h, name) == if k < h.len() {
            Some(h[k].1)
        } else {
            None
        },
    decreases k,
{
    if k > 0 {
        let rest = h.drop_first();
        assert(!same_name(h[0].0, name));
        assert forall|j: int| 0 <= j < k - 1 implies !same_name((#[trigger] rest[j]).0, name) by {
            assert(rest[j] == h[j + 1]);
        }
        the_first_line_of_a_name_counts(rest, name, k - 1);
    }
}

/// A configured variable is found whatever the request says, with the last
/// value that was configured for its name.
pub proof fn a_configured_variable_wins(r: Request, c: ReqC, user: Option<Seq<u8>>, k: int)
    requires
        0 <= k < r.server_vars@.len(),
        plain_name(r.server_vars@[k].0@),
        forall|j: int|
            k < j < r.server_vars@.len() ==> (#[trigger] r.server_vars@[j]).0@
                != r.server_vars@[k].0@,
    ensures
        tells(
            server_variables(r, c, user),
            r.server_vars@[k].0@,
            encode_utf8(r.server_vars@[k].1@),
        ),
{
    let name = r.server_vars@[k].0@;
    let v = configured_variables(r.server_vars@);
    let before = fixed_variables(r, c) + optional_variables(r, c, user) + header_variables(
        lines(c.folded_headers@),
    );
    lemma_plain(name);
    assert forall|j: int| k < j < v.len() implies (#[trigger] v[j]).0 != name by {
        assert(r.server_vars@[j].0@ != name);
    }
    lemma_found(v, k, name);
    lemma_looked_up_add(before, v, name);
}

/// A field's name as part of a variable's: ASCII letters in upper case, and an
/// underscore for each hyphen.
pub open spec fn spelled(var: Seq<char>, name: Seq<char>) -> bool {
    &&& header_named(var)
    &&& var.len() == name.len() + 5
    &&& forall|i: int| #![trigger name[i]]
        0 <= i < name.len() ==> if name[i] == '-' {
            var[i + 5] == '_'
        } else if 'a' <= name[i] && name[i] <= 'z' {
            var[i + 5] as u32 + 32 == name[i] as u32
        } else {
            var[i + 5] == name[i]
        }
}

/// A field's variable is spelled by its name.
proof fn lemma_spelled(var: Seq<char>, name: Seq<char>)
    requires
        spelled(var, name),
    ensures
        header_variable(name) == var,
{
    reveal_strlit("HTTP_");
    let h = header_variable(name);
    assert forall|i: int| 0 <= i < h.len() implies h[i] == var[i] by {
        if i >= 5 {
            let x = name[i - 5];
            assert(h[i] == cgi_char(x));
            assert(var[(i - 5) + 5] == var[i]);
            if 'a' <= x && x <= 'z' {
                let u: u32 = (x as u32 - 32) as u32;
                vstd::utf8::char_u32_cast(var[i], u);
            }
        }
    }
    assert(h =~= var);
}

/// A script finds each header field under its variable: one that came in one
/// line has the value of that line, byte for byte.
pub proof fn a_field_is_found_under_its_variable(
    r: Request,
    c: ReqC,
    user: Option<Seq<u8>>,
    k: int,
    var: Seq<char>,
)
    requires
        c.materializes(r),
        0 <= k < r.headers@.len(),
        plain_name(var),
        spelled(var, r.headers@[k].0@),
        unconfigured(r, var),
        forall|j: int|
            0 <= j < r.headers@.len() && j != k ==> !spelled(var, (#[trigger] r.headers@[j]).0@)
                && !same_name(r.headers@[j].0@, r.headers@[k].0@),
    ensures
        tells(server_variables(r, c, user), var, r.headers@[k].1@),
{
    let h = lines(r.headers@);
    let f = folded(h);
    let name = h[k].0;
    let hv = header_variables(f);
    let v = configured_variables(r.server_vars@);
    assert(h[k] == (r.headers@[k].0@, r.headers@[k].1@));
    each_name_once(h);
    assert(occurs(name, h)) by {
        assert(same_name(h[k].0, name));
    }
    let i = choose|i: int|
        0 <= i < first_seen(h).len() && same_name(#[trigger] first_seen(h)[i], name);
    lemma_seen_is_sent(h);
    let p = choose|p: int| 0 <= p < h.len() && (#[trigger] h[p]).0 == first_seen(h)[i];
    assert(p == k) by {
        assert(h[p] == (r.headers@[p].0@, r.headers@[p].1@));
    }
    assert forall|j: int| 0 <= j < h.len() && j != k implies !same_name(
        (#[trigger] h[j]).0,
        name,
    ) by {
        assert(h[j] == (r.headers@[j].0@, r.headers@[j].1@));
    }
    one_line_folds_to_itself(h, k);
    lemma_spelled(var, name);
    lemma_plain(var);
    assert(hv[i].0 == var);
    assert forall|j: int| i < j < hv.len() implies (#[trigger] hv[j]).0 != var by {
        let other = first_seen(h)[j];
        let q = choose|q: int| 0 <= q < h.len() && (#[trigger] h[q]).0 == other;
        assert(h[q] == (r.headers@[q].0@, r.headers@[q].1@));
        assert(!same_name(first_seen(h)[i], first_seen(h)[j]));
        assert(q != k);
        assert(!spelled(var, other));
        lemma_unspelled(var, other);
    }
    lemma_found(hv, i, var);
    let before = fixed_variables(r, c) + optional_variables(r, c, user);
    lemma_looked_up_add(before, hv, var);
    assert forall|j: int| 0 <= j < v.len() implies (#[trigger] v[j]).0 != var by {
        assert(r.server_vars@[j].0@ != var);
    }
    lemma_missing(v, var);
    lemma_looked_up_add(before + hv, v, var);
}

/// The names of a fold are names of the fields.
proof fn lemma_seen_is_sent(h: Seq<Line>)
    ensures
        forall|i: int|
            0 <= i < first_seen(h).len() ==> exists|p: int|
                0 <= p < h.len() && (#[trigger] h[p]).0 == #[trigger] first_seen(h)[i],
    decreases h.len(),
{
    if h.len() > 0 {
        let t = h.drop_last();
        lemma_seen_is_sent(t);
        assert forall|i: int| 0 <= i < first_seen(h).len() implies exists|p: int|
            0 <= p < h.len() && (#[trigger] h[p]).0 == #[trigger] first_seen(h)[i] by {
            if i < first_seen(t).len() {
                assert(first_seen(h)[i] == first_seen(t)[i]);
                let p = choose|p: int|
                    0 <= p < t.len() && (#[trigger] t[p]).0 == first_seen(t)[i];
                assert(h[p].0 == first_seen(h)[i]);
            } else {
                assert(h[h.len() - 1].0 == first_seen(h)[i]);
            }
        }
    }
}

/// A variable that is not spelled by a name is not that name's.
proof fn lemma_unspelled(var: Seq<char>, name: Seq<char>)
    requires
        !spelled(var, name),
    ensures
        header_variable(name) != var,
{
    reveal_strlit("HTTP_");
    let h = header_variable(name);
    if h == var {
        assert forall|i: int| #![trigger name[i]] 0 <= i < name.len() implies if name[i] == '-' {
            var[i + 5] == '_'
        } else if 'a' <= name[i] && name[i] <= 'z' {
            var[i + 5] as u32 + 32 == name[i] as u32
        } else {
            var[i + 5] == name[i]
        } by {
            assert(h[i + 5] == cgi_char(name[i]));
        }
        assert(spelled(var, name));
    }
}

/// A field that came in one line keeps its value.
pub proof fn one_line_folds_to_itself(h: Seq<Line>, k: int)
    requires
        0 <= k < h.len(),
        forall|j: int| 0 <= j < h.len() && j != k ==> !same_name((#[trigger] h[j]).0, h[k].0),
    ensures
        merged(h[k].0, h) == h[k].1,
    decreases h.len(),
{
    let t = h.drop_last();
    if k == h.len() - 1 {
        if occurs(h[k].0, t) {
            let j = choose|j: int| 0 <= j < t.len() && same_name((#[trigger] t[j]).0, h[k].0);
            assert(t[j] == h[j]);
        }
    } else {
        assert(!same_name(h[h.len() - 1].0, h[k].0));
        assert forall|j: int| 0 <= j < t.len() && j != k implies !same_name(
            (#[trigger] t[j]).0,
            t[k].0,
        ) by {
            assert(t[j] == h[j]);
        }
        one_line_folds_to_itself(t, k);
    }
}

/// A value as the engine gets it: byte for byte, or empty where it holds a NUL
/// byte.
pub open spec fn crosses(got: Seq<u8>, value: Seq<u8>) -> bool {
    if exists|i: int| 0 <= i < value.len() && #[trigger] value[i] == 0 {
        got.len() == 0
    } else {
        got == value
    }
}

/// The engine is told of the request what `$_SERVER` tells the script, and the
/// number of its protocol.
pub proof fn the_engine_is_told_of_the_request(i: RequestInfo<'_>, r: Request, c: ReqC, k: int)
    requires
        c.materializes(r),
        informs(i, r, c),
        0 <= k <= r.headers@.len(),
        forall|j: int|
            0 <= j < k ==> !same_name((#[trigger] r.headers@[j]).0@, "authorization"@),
        k < r.headers@.len() ==> same_name(r.headers@[k].0@, "authorization"@),
    ensures
        crosses(i.request_method@, encode_utf8(r.method@)),
        crosses(i.request_uri@, encode_utf8(r.uri@)),
        crosses(i.query_string@, encode_utf8(r.query@)),
        crosses(i.path_translated@, encode_utf8(lossy(r.script_filename@))),
        i.content_length == r.content_length,
        i.content_type is Some <==> r.content_type is Some,
        r.content_type matches Some(v) ==> crosses(i.content_type->0@, v@),
        i.authorization is Some <==> k < r.headers@.len(),
        k < r.headers@.len() ==> crosses(i.authorization->0@, r.headers@[k].1@),
        r.protocol@ == "HTTP/1.0"@ ==> i.proto_num == 1000,
        r.protocol@ == "HTTP/1.1"@ ==> i.proto_num == 1001,
        r.protocol@ == "HTTP/2.0"@ ==> i.proto_num == 2000,
        r.protocol@ == "HTTP/3.0"@ ==> i.proto_num == 3000,
{
    let h = lines(r.headers@);
    assert forall|j: int| 0 <= j < k implies !same_name(
        (#[trigger] h[j]).0,
        "authorization"@,
    ) by {
        assert(!same_name(r.headers@[j].0@, "authorization"@));
    }
    the_first_line_of_a_name_counts(h, "authorization"@, k);
    reveal_strlit("HTTP/1.0");
    reveal_strlit("HTTP/1.1");
    reveal_strlit("HTTP/2.0");
    reveal_strlit("HTTP/3.0");
    assert("HTTP/1.0"@[7] != "HTTP/1.1"@[7]);
    assert("HTTP/1.0"@[5] != "HTTP/2.0"@[5]);
    assert("HTTP/1.0"@[5] != "HTTP/3.0"@[5]);
    assert("HTTP/1.1"@[5] != "HTTP/2.0"@[5]);
    assert("HTTP/1.1"@[5] != "HTTP/3.0"@[5]);
    assert("HTTP/2.0"@[5] != "HTTP/3.0"@[5]);
}

/// Of two variables with one name the later counts, and any other name is left
/// as it was.
pub proof fn the_later_variable_counts(
    e: Seq<(Seq<u8>, Seq<u8>)>,
    name: Seq<u8>,
    value: Seq<u8>,
    other: Seq<u8>,
)
    ensures
        environment(e.push((name, value))).contains_key(name),
        environment(e.push((name, value)))[name] == value,
        other != name ==> environment(e.push((name, value))).contains_key(other) == environment(
            e,
        ).contains_key(other) && environment(e.push((name, value)))[other] == environment(e)[other],
        !environment(Seq::empty()).contains_key(name),
        crossing(e.push((name, value))) == if exists|i: int|
            0 <= i < value.len() && #[trigger] value[i] == 0 {
            crossing(e)
        } else {
            crossing(e).push((name, value))
        },
{
    assert(e.push((name, value)).drop_last() =~= e);
    crate::seqs::lemma_filter_push(e, (name, value), |p: (Seq<u8>, Seq<u8>)| !has_nul(p.1));
}

/// The cookie string of a request is the value of its one cookie line; without
/// one there is none.
pub proof fn one_cookie_line_is_the_cookie_string(r: Request, c: ReqC, k: int)
    requires
        c.materializes(r),
        0 <= k <= r.headers@.len(),
        forall|j: int|
            0 <= j < r.headers@.len() && j != k ==> !same_name(
                (#[trigger] r.headers@[j]).0@,
                "cookie"@,
            ),
        k < r.headers@.len() ==> same_name(r.headers@[k].0@, "cookie"@),
    ensures
        c.cookie is Some <==> k < r.headers@.len(),
        k < r.headers@.len() ==> crosses(c.cookie->0@, r.headers@[k].1@),
{
    let h = lines(r.headers@);
    let f = folded(h);
    let name = "cookie"@;
    each_name_once(h);
    lemma_seen_is_sent(h);
    assert forall|j: int| 0 <= j < h.len() implies h[j] == (
        r.headers@[j].0@,
        #[trigger] r.headers@[j].1@,
    ) by {}
    if k < h.len() {
        assert(occurs(name, h)) by {
            assert(h[k] == (r.headers@[k].0@, r.headers@[k].1@));
            assert(same_name(h[k].0, name));
        }
        let i = choose|i: int|
            0 <= i < first_seen(h).len() && same_name(#[trigger] first_seen(h)[i], name);
        let p = choose|p: int| 0 <= p < h.len() && (#[trigger] h[p]).0 == first_seen(h)[i];
        assert(h[p] == (r.headers@[p].0@, r.headers@[p].1@));
        assert(p == k);
        assert forall|j: int| 0 <= j < h.len() && j != k implies !same_name(
            (#[trigger] h[j]).0,
            h[k].0,
        ) by {
            assert(h[j] == (r.headers@[j].0@, r.headers@[j].1@));
            assert(!same_name(r.headers@[j].0@, name));
        }
        one_line_folds_to_itself(h, k);
        assert(f[i] == (h[k].0, h[k].1));
        assert forall|j: int| 0 <= j < i implies !same_name((#[trigger] f[j]).0, name) by {
            assert(f[j].0 == first_seen(h)[j]);
            assert(!same_name(first_seen(h)[j], first_seen(h)[i]));
        }
        the_first_line_of_a_name_counts(f, name, i);
    } else {
        assert forall|j: int| 0 <= j < f.len() implies !same_name((#[trigger] f[j]).0, name) by {
            assert(f[j].0 == first_seen(h)[j]);
            let p = choose|p: int| 0 <= p < h.len() && (#[trigger] h[p]).0 == first_seen(h)[j];
            assert(h[p] == (r.headers@[p].0@, r.headers@[p].1@));
            assert(!same_name(r.headers@[p].0@, name));
        }
        the_first_line_of_a_name_counts(f, name, f.len() as int);
    }
}

} // verus!
