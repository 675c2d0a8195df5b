//! The head and trailer rules of a response: what may travel on the wire, what
//! the host frames by itself, and how a script's header table is flattened.

use vstd::prelude::*;
use vstd::utf8::{decode_utf8, valid_utf8};
use crate::fields::{
    ascii_text, copy_bytes, lemma_ascii_text, line, lines, FieldLines, Line,
};
use crate::seqs::{lemma_filter_push, lemma_take_all, lemma_take_push};
use crate::text::{lossy_text, parse_number, parsed_number, same_name, trimmed, utf8_text};

verus! {

/// Why a field list is refused.
#[derive(Clone, Copy, Debug, PartialEq, Eq, Structural)]
pub enum FieldFault {
    /// A name is no token, or is no text at all.
    NameNotWire,
    /// An entry is not a list.
    EntryNotList,
    /// A value is no text, or holds a byte that no field value may hold.
    ValueNotWire,
    /// More than one content-length line.
    LengthRepeats,
}

impl FieldFault {
    /// The message that goes with the fault.
    pub fn message(self) -> (m: &'static str)
        ensures
            m@ == self.text(),
    {
        match self {
            FieldFault::NameNotWire => "header name is not representable on the wire",
            FieldFault::EntryNotList => "each header entry must be a list of strings",
            FieldFault::ValueNotWire => "header value is not representable on the wire",
            FieldFault::LengthRepeats => "content-length may not repeat",
        }
    }

    /// The wording of the message.
    pub open spec fn text(self) -> Seq<char> {
        match self {
            FieldFault::NameNotWire => "header name is not representable on the wire"@,
            FieldFault::EntryNotList => "each header entry must be a list of strings"@,
            FieldFault::ValueNotWire => "header value is not representable on the wire"@,
            FieldFault::LengthRepeats => "content-length may not repeat"@,
        }
    }
}

/// RFC 9110 section 6.5.1: fields that may not travel in a trailer section
/// (framing, connection family, routing, authentication, request modifiers,
/// response controls, content format).
pub open spec fn trailer_forbidden(name: Seq<char>) -> bool {
    ||| same_name(name, "age"@)
    ||| same_name(name, "authorization"@)
    ||| same_name(name, "cache-control"@)
    ||| same_name(name, "connection"@)
    ||| same_name(name, "content-encoding"@)
    ||| same_name(name, "content-language"@)
    ||| same_name(name, "content-length"@)
    ||| same_name(name, "content-location"@)
    ||| same_name(name, "content-range"@)
    ||| same_name(name, "content-type"@)
    ||| same_name(name, "cookie"@)
    ||| same_name(name, "date"@)
    ||| same_name(name, "expect"@)
    ||| same_name(name, "expires"@)
    ||| same_name(name, "forwarded"@)
    ||| same_name(name, "host"@)
    ||| same_name(name, "if-match"@)
    ||| same_name(name, "if-modified-since"@)
    ||| same_name(name, "if-none-match"@)
    ||| same_name(name, "if-range"@)
    ||| same_name(name, "if-unmodified-since"@)
    ||| same_name(name, "keep-alive"@)
    ||| same_name(name, "location"@)
    ||| same_name(name, "max-forwards"@)
    ||| same_name(name, "pragma"@)
    ||| same_name(name, "proxy-authenticate"@)
    ||| same_name(name, "proxy-authorization"@)
    ||| same_name(name, "proxy-connection"@)
    ||| same_name(name, "range"@)
    ||| same_name(name, "retry-after"@)
    ||| same_name(name, "set-cookie"@)
    ||| same_name(name, "te"@)
    ||| same_name(name, "trailer"@)
    ||| same_name(name, "transfer-encoding"@)
    ||| same_name(name, "upgrade"@)
    ||| same_name(name, "vary"@)
    ||| same_name(name, "via"@)
    ||| same_name(name, "warning"@)
    ||| same_name(name, "www-authenticate"@)
}

/// Whether a field may not travel in a trailer section. Unknown and extension
/// fields may.
pub fn forbidden_trailer(name: &str) -> (r: bool)
    ensures
        r == trailer_forbidden(name@),
{
    name.eq_ignore_ascii_case("age") || name.eq_ignore_ascii_case("authorization")
        || name.eq_ignore_ascii_case("cache-control") || name.eq_ignore_ascii_case("connection")
        || name.eq_ignore_ascii_case("content-encoding") || name.eq_ignore_ascii_case(
        "content-language",
    ) || name.eq_ignore_ascii_case("content-length") || name.eq_ignore_ascii_case(
        "content-location",
    ) || name.eq_ignore_ascii_case("content-range") || name.eq_ignore_ascii_case("content-type")
        || name.eq_ignore_ascii_case("cookie") || name.eq_ignore_ascii_case("date")
        || name.eq_ignore_ascii_case("expect") || name.eq_ignore_ascii_case("expires")
        || name.eq_ignore_ascii_case("forwarded") || name.eq_ignore_ascii_case("host")
        || name.eq_ignore_ascii_case("if-match") || name.eq_ignore_ascii_case("if-modified-since")
        || name.eq_ignore_ascii_case("if-none-match") || name.eq_ignore_ascii_case("if-range")
        || name.eq_ignore_ascii_case("if-unmodified-since") || name.eq_ignore_ascii_case(
        "keep-alive",
    ) || name.eq_ignore_ascii_case("location") || name.eq_ignore_ascii_case("max-forwards")
        || name.eq_ignore_ascii_case("pragma") || name.eq_ignore_ascii_case("proxy-authenticate")
        || name.eq_ignore_ascii_case("proxy-authorization") || name.eq_ignore_ascii_case(
        "proxy-connection",
    ) || name.eq_ignore_ascii_case("range") || name.eq_ignore_ascii_case("retry-after")
        || name.eq_ignore_ascii_case("set-cookie") || name.eq_ignore_ascii_case("te")
        || name.eq_ignore_ascii_case("trailer") || name.eq_ignore_ascii_case("transfer-encoding")
        || name.eq_ignore_ascii_case("upgrade") || name.eq_ignore_ascii_case("vary")
        || name.eq_ignore_ascii_case("via") || name.eq_ignore_ascii_case("warning")
        || name.eq_ignore_ascii_case("www-authenticate")
}

/// RFC 9110 section 7.6.1's remove set plus proxy-connection; `trailer` is not
/// hop-by-hop and stays.
pub open spec fn hop_by_hop(name: Seq<char>) -> bool {
    ||| same_name(name, "transfer-encoding"@)
    ||| same_name(name, "connection"@)
    ||| same_name(name, "keep-alive"@)
    ||| same_name(name, "upgrade"@)
    ||| same_name(name, "te"@)
    ||| same_name(name, "proxy-connection"@)
}

/// Whether a field belongs to one connection only.
pub fn is_hop_by_hop(name: &str) -> (r: bool)
    ensures
        r == hop_by_hop(name@),
{
    name.eq_ignore_ascii_case("transfer-encoding") || name.eq_ignore_ascii_case("connection")
        || name.eq_ignore_ascii_case("keep-alive") || name.eq_ignore_ascii_case("upgrade")
        || name.eq_ignore_ascii_case("te") || name.eq_ignore_ascii_case("proxy-connection")
}

/// A field that takes no part in framing the message.
pub open spec fn not_framing(l: Line) -> bool {
    !hop_by_hop(l.0) && !same_name(l.0, "content-length"@)
}

/// An interim head carries no framing fields at all.
pub fn strip_framing(headers: FieldLines) -> (r: FieldLines)
    ensures
        lines(r@) == lines(headers@).filter(|l: Line| not_framing(l)),
{
    let ghost all = lines(headers@);
    let ghost keep = |l: Line| not_framing(l);
    let mut out: FieldLines = Vec::new();
    proof {
        reveal(Seq::filter);
        assert(lines(out@) =~= all.take(0).filter(keep));
    }
    for l in it: headers
        invariant
            all == lines(it.seq()),
            keep == (|l: Line| not_framing(l)),
            lines(out@) == all.take(it.index() as int).filter(keep),
    {
        let ghost before = out@;
        let ghost content = line(l);
        let kept = !is_hop_by_hop(l.0.as_str()) && !l.0.as_str().eq_ignore_ascii_case(
            "content-length",
        );
        proof {
            lemma_take_push(all, it.index() as int);
            lemma_filter_push(all.take(it.index() as int), content, keep);
        }
        if kept {
            out.push(l);
            assert(lines(out@) =~= lines(before).push(content));
        }
    }
    proof {
        lemma_take_all(all);
    }
    out
}

/// A content-length line.
pub open spec fn length_line(l: Line) -> bool {
    same_name(l.0, "content-length"@)
}

/// Whether a head marks its body as already coded.
pub open spec fn coded(h: Seq<Line>) -> bool {
    exists|i: int| 0 <= i < h.len() && same_name((#[trigger] h[i]).0, "content-encoding"@)
}

/// The length that a content-length value declares: a decimal number, white
/// space around it aside, that fits 64 bits.
pub open spec fn declared_length(v: Seq<u8>) -> Option<nat> {
    if valid_utf8(v) {
        parsed_number(trimmed(decode_utf8(v)), u64::MAX as nat)
    } else {
        None
    }
}

/// The length that a content-length value declares, if it declares one.
pub fn parse_content_length(v: &[u8]) -> (r: Option<u64>)
    ensures
        r is Some <==> declared_length(v@) is Some,
        r matches Some(n) ==> declared_length(v@) == Some(n as nat),
{
    match utf8_text(v) {
        None => None,
        Some(s) => parse_number(s.trim(), u64::MAX),
    }
}

/// A final head's fields after the framing post-filter.
pub struct SplitHead {
    pub headers: FieldLines,
    pub declared_cl: Option<u64>,
    pub body_coded: bool,
}

/// What the content-length lines of a head declare together.
pub open spec fn framing_length(h: Seq<Line>) -> Option<nat> {
    let found = h.filter(|l: Line| length_line(l));
    if found.len() > 0 {
        declared_length(found[0].1)
    } else {
        None
    }
}

/// Final-head post-filter: the host frames the response, so hop-by-hop fields
/// drop silently; a content-length is extracted into the declared framing
/// (unparseable: dropped; repeated: refused); content-encoding marks the body as
/// already coded.
pub fn split_framing(headers: FieldLines) -> (r: Result<SplitHead, FieldFault>)
    ensures
        r is Ok <==> lines(headers@).filter(|l: Line| length_line(l)).len() <= 1,
        r matches Err(e) ==> e == FieldFault::LengthRepeats,
        r matches Ok(s) ==> {
            &&& lines(s.headers@) == lines(headers@).filter(|l: Line| not_framing(l))
            &&& match s.declared_cl {
                Some(n) => framing_length(lines(headers@)) == Some(n as nat),
                None => framing_length(lines(headers@)) is None,
            }
            &&& s.body_coded == coded(lines(s.headers@))
        },
{
    let ghost all = lines(headers@);
    let ghost keep = |l: Line| not_framing(l);
    let ghost measure = |l: Line| length_line(l);
    let mut declared_cl: Option<u64> = None;
    let mut seen_length = false;
    let mut body_coded = false;
    let mut out: FieldLines = Vec::new();
    proof {
        reveal(Seq::filter);
        assert(lines(out@) =~= all.take(0).filter(keep));
        assert(all.take(0).filter(measure) =~= Seq::empty());
    }
    for l in it: headers
        invariant
            all == lines(it.seq()),
            all == lines(headers@),
            keep == (|l: Line| not_framing(l)),
            measure == (|l: Line| length_line(l)),
            lines(out@) == all.take(it.index() as int).filter(keep),
            all.take(it.index() as int).filter(measure).len() == (if seen_length {
                1int
            } else {
                0int
            }),
            seen_length ==> match declared_cl {
                Some(n) => declared_length(
                    all.take(it.index() as int).filter(measure)[0].1,
                ) == Some(n as nat),
                None => declared_length(all.take(it.index() as int).filter(measure)[0].1) is None,
            },
            !seen_length ==> declared_cl is None,
            body_coded == coded(lines(out@)),
    {
        let ghost before = out@;
        let ghost content = line(l);
        let ghost i = it.index() as int;
        proof {
            lemma_take_push(all, i);
            lemma_filter_push(all.take(i), content, keep);
            lemma_filter_push(all.take(i), content, measure);
        }
        if l.0.as_str().eq_ignore_ascii_case("content-length") {
            if seen_length {
                proof {
                    lemma_filter_prefix_len(all, i + 1, measure);
                }
                return Err(FieldFault::LengthRepeats);
            }
            seen_length = true;
            declared_cl = parse_content_length(l.1.as_slice());
        } else if !is_hop_by_hop(l.0.as_str()) {
            let marks = l.0.as_str().eq_ignore_ascii_case("content-encoding");
            out.push(l);
            proof {
                assert(lines(out@) =~= lines(before).push(content));
                lemma_coded_push(lines(before), content);
            }
            if marks {
                body_coded = true;
            }
        }
    }
    proof {
        lemma_take_all(all);
    }
    Ok(SplitHead { headers: out, declared_cl, body_coded })
}

/// One more field marks the body as coded exactly when it is content-encoding.
proof fn lemma_coded_push(h: Seq<Line>, l: Line)
    ensures
        coded(h.push(l)) == (coded(h) || same_name(l.0, "content-encoding"@)),
{
    if coded(h) {
        let i = choose|i: int|
            0 <= i < h.len() && same_name((#[trigger] h[i]).0, "content-encoding"@);
        assert(same_name(h.push(l)[i].0, "content-encoding"@));
    }
    if same_name(l.0, "content-encoding"@) {
        assert(same_name(h.push(l)[h.len() as int].0, "content-encoding"@));
    }
    if coded(h.push(l)) {
        let i = choose|i: int|
            0 <= i < h.push(l).len() && same_name(
                (#[trigger] h.push(l)[i]).0,
                "content-encoding"@,
            );
        if i < h.len() {
            assert(same_name(h[i].0, "content-encoding"@));
        }
    }
}

/// A longer prefix never filters to fewer elements.
proof fn lemma_filter_prefix_len(h: Seq<Line>, i: int, pred: spec_fn(Line) -> bool)
    requires
        0 <= i <= h.len(),
    ensures
        h.take(i).filter(pred).len() <= h.filter(pred).len(),
{
    assert(h =~= h.take(i) + h.skip(i));
    Seq::filter_distributes_over_add(h.take(i), h.skip(i), pred);
}

/// RFC 9110 section 5.6.2 tchar.
pub open spec fn tchar(b: u8) -> bool {
    ||| 0x30 <= b <= 0x39
    ||| 0x41 <= b <= 0x5a
    ||| 0x61 <= b <= 0x7a
    ||| b == 0x21
    ||| 0x23 <= b <= 0x27
    ||| b == 0x2a
    ||| b == 0x2b
    ||| b == 0x2d
    ||| b == 0x2e
    ||| b == 0x5e
    ||| b == 0x5f
    ||| b == 0x60
    ||| b == 0x7c
    ||| b == 0x7e
}

/// Whether a byte may stand in a token.
pub fn is_tchar(b: u8) -> (r: bool)
    ensures
        r == tchar(b),
{
    (0x30 <= b && b <= 0x39) || (0x41 <= b && b <= 0x5a) || (0x61 <= b && b <= 0x7a) || b == 0x21
        || (0x23 <= b && b <= 0x27) || b == 0x2a || b == 0x2b || b == 0x2d || b == 0x2e || b == 0x5e
        || b == 0x5f || b == 0x60 || b == 0x7c || b == 0x7e
}

/// RFC 9110 section 5.5: visible ASCII, space, tab and obs-text.
pub open spec fn field_value_byte(b: u8) -> bool {
    b == 0x09 || 0x20 <= b <= 0x7e || 0x80 <= b
}

/// Whether a byte may stand in a field value.
pub fn is_field_value_byte(b: u8) -> (r: bool)
    ensures
        r == field_value_byte(b),
{
    b == 0x09 || (0x20 <= b && b <= 0x7e) || 0x80 <= b
}

/// A name that is a token.
pub open spec fn token(name: Seq<u8>) -> bool {
    name.len() > 0 && forall|i: int| 0 <= i < name.len() ==> tchar(#[trigger] name[i])
}

/// A value that the wire can carry.
pub open spec fn carriable(value: Seq<u8>) -> bool {
    forall|i: int| 0 <= i < value.len() ==> field_value_byte(#[trigger] value[i])
}

/// Whether a name is a token. A name that is none would be dropped downstream
/// in silence, so it is refused here.
pub fn wire_token(name: &[u8]) -> (r: bool)
    ensures
        r == token(name@),
{
    if name.len() == 0 {
        return false;
    }
    for i in 0..name.len()
        invariant
            forall|k: int| 0 <= k < i ==> tchar(#[trigger] name@[k]),
    {
        if !is_tchar(name[i]) {
            assert(!tchar(name@[i as int]));
            return false;
        }
    }
    true
}

/// Whether the wire can carry a value.
pub fn wire_value(value: &[u8]) -> (r: bool)
    ensures
        r == carriable(value@),
{
    for i in 0..value.len()
        invariant
            forall|k: int| 0 <= k < i ==> field_value_byte(#[trigger] value@[k]),
    {
        if !is_field_value_byte(value[i]) {
            assert(!field_value_byte(value@[i as int]));
            return false;
        }
    }
    true
}

/// A key of a script's header table.
pub enum TableKey {
    Name(Vec<u8>),
    Index(i64),
}

/// One value inside a header table's list.
pub enum TableItem {
    Text(Vec<u8>),
    Other,
}

/// What a header table holds under one key.
pub enum TableEntry {
    List(Vec<TableItem>),
    Other,
}

/// A script's header table, in its own order.
pub type HeadTable = Vec<(TableKey, TableEntry)>;

/// An item that may be sent as a field value.
pub open spec fn item_sendable(item: TableItem) -> bool {
    item matches TableItem::Text(v) && carriable(v@)
}

/// What is wrong with one entry, if anything is; the name is looked at first.
pub open spec fn entry_fault(e: (TableKey, TableEntry)) -> Option<FieldFault> {
    if !(e.0 matches TableKey::Name(n) && token(n@)) {
        Some(FieldFault::NameNotWire)
    } else if e.1 is Other {
        Some(FieldFault::EntryNotList)
    } else if exists|k: int|
        0 <= k < e.1->List_0@.len() && !item_sendable(#[trigger] e.1->List_0@[k]) {
        Some(FieldFault::ValueNotWire)
    } else {
        None
    }
}

/// The field lines of one sound entry: one per value, in the list's order.
pub open spec fn entry_lines(e: (TableKey, TableEntry)) -> Seq<Line> {
    e.1->List_0@.map_values(
        |item: TableItem| (ascii_text(e.0->Name_0@), item->Text_0@),
    )
}

/// What is wrong with the first unsound entry of a table.
pub open spec fn table_fault(t: Seq<(TableKey, TableEntry)>) -> Option<FieldFault>
    decreases t.len(),
{
    if t.len() == 0 {
        None
    } else if table_fault(t.drop_last()) is Some {
        table_fault(t.drop_last())
    } else {
        entry_fault(t.last())
    }
}

/// The field lines of a sound table, entry after entry.
pub open spec fn table_lines(t: Seq<(TableKey, TableEntry)>) -> Seq<Line>
    decreases t.len(),
{
    if t.len() == 0 {
        Seq::empty()
    } else {
        table_lines(t.drop_last()) + entry_lines(t.last())
    }
}

/// The fault of a prefix is the fault of the whole.
proof fn lemma_table_fault_prefix(t: Seq<(TableKey, TableEntry)>, i: int)
    requires
        0 <= i <= t.len(),
        table_fault(t.take(i)) is Some,
    ensures
        table_fault(t) == table_fault(t.take(i)),
    decreases t.len(),
{
    if i == t.len() {
        lemma_take_all(t);
    } else {
        assert(t.drop_last().take(i) =~= t.take(i));
        lemma_table_fault_prefix(t.drop_last(), i);
    }
}

/// Flattens the `name => list of values` shape into field lines, wire
/// validation included. No table at all is an empty one.
pub fn walk_head_table(table: Option<&HeadTable>) -> (r: Result<FieldLines, FieldFault>)
    ensures
        table is None ==> (r matches Ok(h) && lines(h@) == Seq::<Line>::empty()),
        table matches Some(t) ==> match table_fault(t@) {
            Some(f) => r == Err::<FieldLines, FieldFault>(f),
            None => r matches Ok(h) && lines(h@) == table_lines(t@),
        },
{
    let mut flat: FieldLines = Vec::new();
    assert(lines(flat@) =~= Seq::<Line>::empty());
    let t: &HeadTable = match table {
        None => {
            return Ok(flat);
        },
        Some(t) => t,
    };
    assert(t@.take(0) =~= Seq::empty());
    for i in 0..t.len()
        invariant
            table == Some(t),
            table_fault(t@.take(i as int)) is None,
            lines(flat@) == table_lines(t@.take(i as int)),
    {
        let ghost e = t@[i as int];
        proof {
            lemma_take_push(t@, i as int);
            assert(t@.take(i + 1).drop_last() =~= t@.take(i as int));
            assert(t@.take(i + 1).last() == e);
            if entry_fault(e) is Some {
                lemma_table_fault_prefix(t@, i + 1);
            }
        }
        let name: &Vec<u8> = match &t[i].0 {
            TableKey::Name(n) => n,
            TableKey::Index(_) => {
                return Err(FieldFault::NameNotWire);
            },
        };
        if !wire_token(name.as_slice()) {
            return Err(FieldFault::NameNotWire);
        }
        let list: &Vec<TableItem> = match &t[i].1 {
            TableEntry::List(l) => l,
            TableEntry::Other => {
                return Err(FieldFault::EntryNotList);
            },
        };
        let ghost start = lines(flat@);
        let ghost own = entry_lines(e);
        assert(lines(flat@) =~= start + own.take(0));
        for k in 0..list.len()
            invariant
                table == Some(t),
                e == t@[i as int],
                i < t@.len(),
                e.0 matches TableKey::Name(n) && n == *name,
                e.1 matches TableEntry::List(l) && l == *list,
                token(name@),
                own == entry_lines(e),
                entry_fault(e) is Some ==> table_fault(t@) == entry_fault(e),
                forall|j: int| 0 <= j < k ==> item_sendable(#[trigger] list@[j]),
                lines(flat@) == start + own.take(k as int),
        {
            let value: &Vec<u8> = match &list[k] {
                TableItem::Text(v) => v,
                TableItem::Other => {
                    assert(!item_sendable(e.1->List_0@[k as int]));
                    return Err(FieldFault::ValueNotWire);
                },
            };
            if !wire_value(value.as_slice()) {
                assert(!item_sendable(e.1->List_0@[k as int]));
                return Err(FieldFault::ValueNotWire);
            }
            proof {
                assert forall|j: int| 0 <= j < name@.len() implies name@[j] < 128 by {
                    assert(tchar(name@[j]));
                }
                lemma_ascii_text(name@);
            }
            let text = lossy_text(name.as_slice());
            let copy = copy_bytes(value.as_slice());
            let ghost before = flat@;
            flat.push((text, copy));
            proof {
                assert(lines(flat@) =~= lines(before).push((text@, copy@)));
                lemma_take_push(own, k as int);
                assert(lines(flat@) =~= start + own.take(k + 1));
            }
        }
        proof {
            lemma_take_all(own);
        }
    }
    proof {
        lemma_take_all(t@);
    }
    Ok(flat)
}

} // verus!
