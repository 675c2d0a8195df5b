//! What the header rules promise together.

use vstd::prelude::*;
use vstd::utf8::{encode_utf8, encode_utf8_decode_utf8, encode_utf8_valid_utf8};
use crate::context::unsigned_part;
use crate::fields::{ascii_text, lemma_ascii_text, Line};
use crate::fold::{each_name_once, first_seen, folded};
use crate::front::{safe_byte, safe_line, safe_name, stated_length};
use crate::grouped::{grouping, keys, keys_are_the_names, named, usable, ByteLine, Group};
use crate::headers::{
    declared_length, entry_fault, entry_lines, item_sendable, not_framing, table_fault, table_lines,
    tchar, TableEntry, TableKey,
};
use crate::seqs::{lemma_filter_push, lemma_total_push, total};
use crate::server_vars::{cgi_char, header_variable};
use crate::text::{
    all_digits, decimal, is_digit, lemma_decimal_reads_back, lower, lower_char, same_name, trimmed,
    trimmed_end, trimmed_start, white_space,
};
use crate::wire::{representable, MAX_NAME_LEN};

verus! {

/// A text of digits has no white space to lose.
proof fn lemma_digits_are_trimmed(s: Seq<char>)
    requires
        all_digits(s),
    ensures
        trimmed(s) == s,
{
    assert(is_digit(s[0]));
    assert(is_digit(s[s.len() - 1]));
}

/// The length that a front writes is the length that is read back from it.
pub proof fn a_written_length_reads_back(n: u64)
    ensures
        declared_length(encode_utf8(decimal(n as nat))) == Some(n as nat),
{
    let s = decimal(n as nat);
    lemma_decimal_reads_back(n as nat);
    encode_utf8_valid_utf8(s);
    encode_utf8_decode_utf8(s);
    lemma_digits_are_trimmed(s);
}

/// A byte string read as ASCII encodes back to itself.
proof fn lemma_ascii_round_trip(bytes: Seq<u8>)
    requires
        forall|i: int| 0 <= i < bytes.len() ==> bytes[i] < 128,
    ensures
        encode_utf8(ascii_text(bytes)) == bytes,
{
    let chars = ascii_text(bytes);
    assert(vstd::utf8::is_ascii_chars(chars));
    vstd::utf8::is_ascii_chars_encode_utf8(chars);
    assert(encode_utf8(chars) =~= bytes);
}

/// The lines of one sound entry can go on the wire.
proof fn lemma_sound_entry(e: (TableKey, TableEntry), i: int)
    requires
        entry_fault(e) is None,
        0 <= i < entry_lines(e).len(),
        e.0->Name_0@.len() <= MAX_NAME_LEN,
    ensures
        representable(entry_lines(e)[i]),
{
    let name = e.0->Name_0@;
    assert forall|k: int| 0 <= k < name.len() implies name[k] < 128 by {
        assert(tchar(name[k]));
    }
    lemma_ascii_round_trip(name);
    assert(item_sendable(e.1->List_0@[i]));
}

/// No line of a table that was accepted is dropped by the front for its shape:
/// what could not go on the wire was refused to the script's face. Names above
/// the HTTP types' own limit aside.
pub proof fn an_accepted_table_is_never_dropped(t: Seq<(TableKey, TableEntry)>, i: int)
    requires
        table_fault(t) is None,
        0 <= i < table_lines(t).len(),
        forall|k: int|
            0 <= k < t.len() ==> ((#[trigger] t[k]).0 matches TableKey::Name(n) ==> n@.len()
                <= MAX_NAME_LEN),
    ensures
        representable(table_lines(t)[i]),
    decreases t.len(),
{
    if t.len() > 0 {
        let p = t.drop_last();
        assert(t[t.len() - 1] == t.last());
        if i < table_lines(p).len() {
            assert forall|k: int| 0 <= k < p.len() implies ((#[trigger] p[k]).0 matches TableKey::Name(
                n,
            ) ==> n@.len() <= MAX_NAME_LEN) by {
                assert(t[k] == p[k]);
            }
            an_accepted_table_is_never_dropped(p, i);
        } else {
            lemma_sound_entry(t.last(), i - table_lines(p).len());
        }
    }
}

/// A committed head holds no framing and no hop-by-hop field, whatever the
/// script wrote.
pub proof fn a_committed_head_holds_no_framing(h: Seq<Line>, i: int)
    requires
        0 <= i < h.filter(|l: Line| not_framing(l)).len(),
    ensures
        not_framing(h.filter(|l: Line| not_framing(l))[i]),
{
    let pred = |l: Line| not_framing(l);
    h.lemma_filter_pred(pred, i);
}

/// The characters of a safe name.
pub open spec fn safe_char(c: char) -> bool {
    ('0' <= c && c <= '9') || ('A' <= c && c <= 'Z') || ('a' <= c && c <= 'z') || c == '-'
}

/// A safe name is made of safe characters.
proof fn lemma_safe_chars(name: Seq<char>)
    requires
        safe_name(encode_utf8(name)),
    ensures
        forall|i: int| 0 <= i < name.len() ==> safe_char(#[trigger] name[i]),
{
    let bytes = encode_utf8(name);
    assert forall|i: int| 0 <= i < bytes.len() implies bytes[i] < 128 by {
        assert(safe_byte(bytes[i]));
    }
    lemma_ascii_text(bytes);
    encode_utf8_decode_utf8(name);
    assert(name == ascii_text(bytes));
    assert forall|i: int| 0 <= i < name.len() implies safe_char(#[trigger] name[i]) by {
        assert(safe_byte(bytes[i]));
        assert(name[i] == bytes[i] as char);
    }
}

/// Two field names that passed the front's name filter land on the same
/// variable only if they are the same name: none aliases another's variable.
pub proof fn safe_names_never_alias(a: Seq<char>, b: Seq<char>)
    requires
        safe_name(encode_utf8(a)),
        safe_name(encode_utf8(b)),
        header_variable(a) == header_variable(b),
    ensures
        same_name(a, b),
{
    lemma_safe_chars(a);
    lemma_safe_chars(b);
    let x = header_variable(a);
    let y = header_variable(b);
    let n = "HTTP_"@.len() as int;
    assert(x.len() == n + a.len());
    assert(y.len() == n + b.len());
    assert forall|i: int| 0 <= i < a.len() implies lower(a)[i] == lower(b)[i] by {
        assert(safe_char(a[i]));
        assert(safe_char(b[i]));
        assert(x[n + i] == cgi_char(a[i]));
        assert(y[n + i] == cgi_char(b[i]));
        assert(lower(a)[i] == lower_char(a[i]));
        assert(lower(b)[i] == lower_char(b[i]));
    }
    assert(lower(a) =~= lower(b));
}

/// After the name filter and the fold every header variable is registered once:
/// no later field takes an earlier one's place.
pub proof fn folded_safe_headers_have_distinct_variables(h: Seq<Line>, i: int, j: int)
    requires
        forall|k: int| 0 <= k < h.len() ==> safe_line(#[trigger] h[k]),
        0 <= i < j < folded(h).len(),
    ensures
        header_variable(folded(h)[i].0) != header_variable(folded(h)[j].0),
{
    each_name_once(h);
    let a = first_seen(h)[i];
    let b = first_seen(h)[j];
    assert(folded(h)[i].0 == a);
    assert(folded(h)[j].0 == b);
    lemma_first_seen_safe(h, i);
    lemma_first_seen_safe(h, j);
    if header_variable(a) == header_variable(b) {
        safe_names_never_alias(a, b);
    }
}

/// A name that was first seen is the name of some line.
proof fn lemma_first_seen_safe(h: Seq<Line>, i: int)
    requires
        forall|k: int| 0 <= k < h.len() ==> safe_line(#[trigger] h[k]),
        0 <= i < first_seen(h).len(),
    ensures
        safe_name(encode_utf8(first_seen(h)[i])),
    decreases h.len(),
{
    if h.len() > 0 {
        let p = h.drop_last();
        assert(safe_line(h[h.len() - 1]));
        assert forall|k: int| 0 <= k < p.len() implies safe_line(#[trigger] p[k]) by {
            assert(safe_line(h[k]));
        }
        if i < first_seen(p).len() {
            lemma_first_seen_safe(p, i);
        }
    }
}

/// How many values a group holds.
pub open spec fn group_size() -> spec_fn(Group) -> nat {
    |g: Group| g.1.len()
}

/// A line whose name can be a key.
pub open spec fn keyed() -> spec_fn(ByteLine) -> bool {
    |l: ByteLine| usable(l.0)
}

/// A total where one element grows by one.
proof fn lemma_total_grow(s: Seq<Group>, i: int, g: Group)
    requires
        0 <= i < s.len(),
        g.1.len() == s[i].1.len() + 1,
    ensures
        total(s.update(i, g), group_size()) == total(s, group_size()) + 1,
    decreases s.len(),
{
    let t = s.update(i, g);
    if i == s.len() - 1 {
        assert(t.drop_last() =~= s.drop_last());
    } else {
        lemma_total_grow(s.drop_last(), i, g);
        assert(t.drop_last() =~= s.drop_last().update(i, g));
    }
}

/// Grouping loses nothing: every line whose name can be a key is a value of
/// some group.
pub proof fn grouping_loses_nothing(h: Seq<ByteLine>)
    ensures
        total(grouping(h), group_size()) == h.filter(keyed()).len(),
    decreases h.len(),
{
    reveal(Seq::filter);
    if h.len() > 0 {
        let p = h.drop_last();
        let l = h.last();
        grouping_loses_nothing(p);
        assert(h =~= p.push(l));
        lemma_filter_push(p, l, keyed());
        keys_are_the_names(p);
        if !usable(l.0) {
            crate::grouped::lemma_group_skip(p, l);
        } else if named(p, l.0) {
            assert(keys(p).contains(l.0));
            let i = choose|i: int| 0 <= i < keys(p).len() && keys(p)[i] == l.0;
            assert(grouping(p)[i].0 == l.0);
            crate::grouped::lemma_group_known(p, l, i);
            lemma_total_grow(grouping(p), i, (l.0, grouping(p)[i].1.push(l.1)));
        } else {
            crate::grouped::lemma_group_new(p, l);
            lemma_total_push(grouping(p), (l.0, seq![l.1]), group_size());
        }
    } else {
        assert(grouping(h) =~= Seq::empty());
    }
}

proof fn lemma_untrimmed_start(lead: Seq<char>, rest: Seq<char>)
    requires
        forall|i: int| 0 <= i < lead.len() ==> white_space(#[trigger] lead[i]),
        rest.len() > 0 ==> !white_space(rest[0]),
    ensures
        trimmed_start(lead + rest) == rest,
    decreases lead.len(),
{
    let s = lead + rest;
    if lead.len() > 0 {
        assert(s[0] == lead[0]);
        assert(s.drop_first() =~= lead.drop_first() + rest);
        lemma_untrimmed_start(lead.drop_first(), rest);
    } else {
        assert(s =~= rest);
    }
}

proof fn lemma_untrimmed_end(text: Seq<char>, tail: Seq<char>)
    requires
        forall|i: int| 0 <= i < tail.len() ==> white_space(#[trigger] tail[i]),
        text.len() > 0 ==> !white_space(text.last()),
    ensures
        trimmed_end(text + tail) == text,
    decreases tail.len(),
{
    let s = text + tail;
    if tail.len() > 0 {
        assert(s.last() == tail.last());
        assert(s.drop_last() =~= text + tail.drop_last());
        lemma_untrimmed_end(text, tail.drop_last());
    } else {
        assert(s =~= text);
    }
}

/// A content-length reads the same with white space around it.
pub proof fn a_length_may_be_padded(n: u64, lead: Seq<char>, tail: Seq<char>)
    requires
        forall|i: int| 0 <= i < lead.len() ==> white_space(#[trigger] lead[i]),
        forall|i: int| 0 <= i < tail.len() ==> white_space(#[trigger] tail[i]),
    ensures
        declared_length(encode_utf8(lead + decimal(n as nat) + tail)) == Some(n as nat),
{
    let d = decimal(n as nat);
    lemma_decimal_reads_back(n as nat);
    assert(is_digit(d[0]));
    assert(is_digit(d[d.len() - 1]));
    lemma_padding(lead, d, tail);
    let a = lead + d + tail;
    encode_utf8_valid_utf8(a);
    encode_utf8_decode_utf8(a);
}

/// A value with anything but digits inside, white space around it aside, declares
/// no length.
pub proof fn other_values_declare_no_length(
    lead: Seq<char>,
    text: Seq<char>,
    tail: Seq<char>,
    k: int,
)
    requires
        forall|i: int| 0 <= i < lead.len() ==> white_space(#[trigger] lead[i]),
        forall|i: int| 0 <= i < tail.len() ==> white_space(#[trigger] tail[i]),
        0 <= k < text.len(),
        text[k] < '0' || text[k] > '9',
        !white_space(text[0]),
        !white_space(text.last()),
    ensures
        declared_length(encode_utf8(lead + text + tail)) is None,
{
    lemma_padding(lead, text, tail);
    let a = lead + text + tail;
    encode_utf8_valid_utf8(a);
    encode_utf8_decode_utf8(a);
    assert(!is_digit(text[k]));
}

proof fn lemma_padding(lead: Seq<char>, text: Seq<char>, tail: Seq<char>)
    requires
        forall|i: int| 0 <= i < lead.len() ==> white_space(#[trigger] lead[i]),
        forall|i: int| 0 <= i < tail.len() ==> white_space(#[trigger] tail[i]),
        text.len() > 0,
        !white_space(text[0]),
        !white_space(text.last()),
    ensures
        trimmed(lead + text + tail) == text,
{
    assert(lead + text + tail =~= lead + (text + tail));
    assert((text + tail)[0] == text[0]);
    lemma_untrimmed_start(lead, text + tail);
    lemma_untrimmed_end(text, tail);
}

/// The length that a request states is the number in its value, with or without
/// a plus sign.
pub proof fn a_request_states_its_length(n: nat)
    requires
        n <= usize::MAX,
    ensures
        stated_length(encode_utf8(decimal(n))) == Some(n),
        stated_length(seq![0x2bu8] + encode_utf8(decimal(n))) == Some(n),
{
    let d = decimal(n);
    let e = encode_utf8(d);
    lemma_decimal_reads_back(n);
    assert forall|i: int| 0 <= i < d.len() implies '0' <= #[trigger] d[i] && d[i] <= '9' by {
        assert(is_digit(d[i]));
    }
    assert(vstd::utf8::is_ascii_chars(d));
    vstd::utf8::is_ascii_chars_encode_utf8(d);
    assert forall|i: int| 0 <= i < d.len() implies ascii_text(e)[i] == d[i] by {
        assert(d[i] as u8 == e[i]);
    }
    assert(ascii_text(e) =~= d);
    assert(e[0] == d[0] as u8);
    assert(unsigned_part(e) == e);
    let p = seq![0x2bu8] + e;
    assert(p.drop_first() =~= e);
    assert(unsigned_part(p) == e);
}

/// A value that holds anything but digits, a leading plus sign aside, states no
/// length.
pub proof fn other_values_state_no_length(v: Seq<u8>, k: int)
    requires
        0 <= k < v.len(),
        v[k] < 48 || v[k] > 57,
        k == 0 && v[0] == 0x2b ==> v.len() == 1,
    ensures
        stated_length(v) is None,
{
    let u = unsigned_part(v);
    let at: int = if v.len() > 1 && v[0] == 0x2b {
        k - 1
    } else {
        k
    };
    assert(u[at] == v[k]);
    assert(ascii_text(u)[at] == v[k] as char);
    assert(!is_digit(ascii_text(u)[at]));
}

} // verus!
