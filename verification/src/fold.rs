//! The CGI header fold: one deterministic value per field name. The boundary
//! carries one entry per field line; only the CGI-serving modes fold, once, when
//! a request is materialized.

use vstd::prelude::*;
use crate::fields::{copy_bytes, copy_text, line, lines, FieldLines, Line};
use crate::seqs::{lemma_take_all, lemma_take_push};
use crate::text::same_name;

verus! {

/// Fields that hold one value: a repeat must not be joined into the first.
pub open spec fn singleton_field(name: Seq<char>) -> bool {
    ||| same_name(name, "authorization"@)
    ||| same_name(name, "proxy-authorization"@)
    ||| same_name(name, "content-type"@)
    ||| same_name(name, "content-length"@)
    ||| same_name(name, "referer"@)
    ||| same_name(name, "from"@)
}

/// What joins the repeats of a field, or `None` where the first line wins and
/// the rest are dropped. Cookies rejoin on a semicolon (RFC 6265 section 4.2.1),
/// list fields on a comma (RFC 9110 section 5.3).
pub open spec fn separator(name: Seq<char>) -> Option<Seq<u8>> {
    if singleton_field(name) {
        None
    } else if same_name(name, "cookie"@) {
        Some(seq![0x3bu8, 0x20u8])
    } else {
        Some(seq![0x2cu8, 0x20u8])
    }
}

/// What joins the repeats of a field, if anything does.
pub fn field_line_separator(name: &str) -> (r: Option<[u8; 2]>)
    ensures
        match separator(name@) {
            Some(s) => r matches Some(a) && a@ == s,
            None => r is None,
        },
{
    if name.eq_ignore_ascii_case("authorization") || name.eq_ignore_ascii_case(
        "proxy-authorization",
    ) || name.eq_ignore_ascii_case("content-type") || name.eq_ignore_ascii_case("content-length")
        || name.eq_ignore_ascii_case("referer") || name.eq_ignore_ascii_case("from") {
        None
    } else if name.eq_ignore_ascii_case("cookie") {
        let a: [u8; 2] = [0x3b, 0x20];
        assert(a@ =~= seq![0x3bu8, 0x20u8]);
        Some(a)
    } else {
        let a: [u8; 2] = [0x2c, 0x20];
        assert(a@ =~= seq![0x2cu8, 0x20u8]);
        Some(a)
    }
}

/// Whether a name occurs among the lines.
pub open spec fn occurs(name: Seq<char>, h: Seq<Line>) -> bool {
    exists|i: int| 0 <= i < h.len() && same_name((#[trigger] h[i]).0, name)
}

/// The names of a field list, each once, in the order and spelling first seen.
pub open spec fn first_seen(h: Seq<Line>) -> Seq<Seq<char>>
    decreases h.len(),
{
    if h.len() == 0 {
        Seq::empty()
    } else if occurs(h.last().0, h.drop_last()) {
        first_seen(h.drop_last())
    } else {
        first_seen(h.drop_last()).push(h.last().0)
    }
}

/// The one value of a name: all its lines joined, or the first where repeats do
/// not join.
pub open spec fn merged(name: Seq<char>, h: Seq<Line>) -> Seq<u8>
    decreases h.len(),
{
    if h.len() == 0 {
        Seq::empty()
    } else {
        let l = h.last();
        let before = merged(name, h.drop_last());
        if !same_name(l.0, name) {
            before
        } else if !occurs(name, h.drop_last()) {
            l.1
        } else {
            match separator(name) {
                Some(sep) => before + sep + l.1,
                None => before,
            }
        }
    }
}

/// One line per name: list fields joined on their separator, singleton fields
/// with their first line.
pub open spec fn folded(h: Seq<Line>) -> Seq<Line> {
    first_seen(h).map_values(|n: Seq<char>| (n, merged(n, h)))
}

/// `first_seen` holds each name once, and exactly the names that occur.
pub proof fn each_name_once(h: Seq<Line>)
    ensures
        forall|i: int, j: int|
            #![trigger first_seen(h)[i], first_seen(h)[j]]
            0 <= i < j < first_seen(h).len() ==> !same_name(first_seen(h)[i], first_seen(h)[j]),
        forall|i: int|
            0 <= i < first_seen(h).len() ==> occurs(#[trigger] first_seen(h)[i], h),
        forall|name: Seq<char>| #[trigger]
            occurs(name, h) ==> exists|i: int|
                0 <= i < first_seen(h).len() && same_name(#[trigger] first_seen(h)[i], name),
    decreases h.len(),
{
    if h.len() > 0 {
        let p = h.drop_last();
        let l = h.last();
        each_name_once(p);
        assert forall|name: Seq<char>| occurs(name, p) implies occurs(name, h) by {
            let i = choose|i: int| 0 <= i < p.len() && same_name((#[trigger] p[i]).0, name);
            assert(same_name(h[i].0, name));
        }
        assert(occurs(l.0, h)) by {
            assert(same_name(h[h.len() - 1].0, l.0));
        }
        assert forall|i: int| 0 <= i < first_seen(h).len() implies occurs(
            #[trigger] first_seen(h)[i],
            h,
        ) by {
            if i < first_seen(p).len() {
                assert(first_seen(h)[i] == first_seen(p)[i]);
            }
        }
        assert forall|i: int, j: int|
            #![trigger first_seen(h)[i], first_seen(h)[j]]
            0 <= i < j < first_seen(h).len() implies !same_name(
            first_seen(h)[i],
            first_seen(h)[j],
        ) by {
            if j < first_seen(p).len() {
                assert(first_seen(h)[i] == first_seen(p)[i]);
                assert(first_seen(h)[j] == first_seen(p)[j]);
            } else {
                let name = first_seen(p)[i];
                assert(first_seen(h)[i] == name);
                assert(occurs(name, p));
                if same_name(name, l.0) {
                    let k = choose|k: int|
                        0 <= k < p.len() && same_name((#[trigger] p[k]).0, name);
                    assert(same_name(p[k].0, l.0));
                    assert(occurs(l.0, p));
                }
            }
        }
        assert forall|name: Seq<char>| #[trigger] occurs(name, h) implies exists|i: int|
            0 <= i < first_seen(h).len() && same_name(#[trigger] first_seen(h)[i], name) by {
            let k = choose|k: int| 0 <= k < h.len() && same_name((#[trigger] h[k]).0, name);
            if k < p.len() {
                assert(same_name(p[k].0, name));
                assert(occurs(name, p));
                let i = choose|i: int|
                    0 <= i < first_seen(p).len() && same_name(#[trigger] first_seen(p)[i], name);
                assert(first_seen(h)[i] == first_seen(p)[i]);
            } else if occurs(l.0, p) {
                let i = choose|i: int|
                    0 <= i < first_seen(p).len() && same_name(#[trigger] first_seen(p)[i], l.0);
                assert(first_seen(h)[i] == first_seen(p)[i]);
                assert(same_name(first_seen(h)[i], name));
            } else {
                assert(first_seen(h)[first_seen(h).len() - 1] == l.0);
            }
        }
    }
}

/// One more line of a name that was not seen before.
pub(crate) proof fn lemma_fold_new(h: Seq<Line>, l: Line)
    requires
        !occurs(l.0, h),
    ensures
        folded(h.push(l)) == folded(h).push(l),
{
    assert(h.push(l).drop_last() =~= h);
    each_name_once(h);
    assert forall|i: int| 0 <= i < first_seen(h).len() implies merged(
        first_seen(h)[i],
        h.push(l),
    ) == merged(first_seen(h)[i], h) by {
        let n = first_seen(h)[i];
        assert(occurs(n, h));
        if same_name(l.0, n) {
            let k = choose|k: int| 0 <= k < h.len() && same_name((#[trigger] h[k]).0, n);
            assert(same_name(h[k].0, l.0));
        }
    }
    assert(folded(h.push(l)) =~= folded(h).push(l));
}

/// One more line of the name at place `i` of the fold.
pub(crate) proof fn lemma_fold_known(h: Seq<Line>, l: Line, i: int)
    requires
        0 <= i < folded(h).len(),
        same_name(folded(h)[i].0, l.0),
    ensures
        folded(h.push(l)) == match separator(folded(h)[i].0) {
            Some(sep) => folded(h).update(
                i,
                (folded(h)[i].0, folded(h)[i].1 + sep + l.1),
            ),
            None => folded(h),
        },
{
    let g = h.push(l);
    assert(g.drop_last() =~= h);
    each_name_once(h);
    let n = first_seen(h)[i];
    assert(occurs(n, h));
    assert(occurs(l.0, h)) by {
        let k = choose|k: int| 0 <= k < h.len() && same_name((#[trigger] h[k]).0, n);
        assert(same_name(h[k].0, l.0));
    }
    assert forall|j: int| 0 <= j < first_seen(h).len() && j != i implies merged(
        first_seen(h)[j],
        g,
    ) == merged(first_seen(h)[j], h) by {
        if same_name(l.0, first_seen(h)[j]) {
            assert(same_name(first_seen(h)[i], first_seen(h)[j]));
            assert(same_name(first_seen(h)[j], first_seen(h)[i]));
            if i < j {
                assert(!same_name(first_seen(h)[i], first_seen(h)[j]));
            } else {
                assert(!same_name(first_seen(h)[j], first_seen(h)[i]));
            }
        }
    }
    match separator(n) {
        Some(sep) => {
            assert(folded(g) =~= folded(h).update(i, (n, folded(h)[i].1 + sep + l.1)));
        },
        None => {
            assert(folded(g) =~= folded(h));
        },
    }
}

/// Folds field lines to one entry per name.
pub fn fold_field_lines(headers: &[(String, Vec<u8>)]) -> (r: FieldLines)
    ensures
        lines(r@) == folded(lines(headers@)),
{
    let ghost all = lines(headers@);
    let mut r: FieldLines = Vec::new();
    assert(lines(r@) =~= folded(all.take(0)));
    for k in 0..headers.len()
        invariant
            all == lines(headers@),
            lines(r@) == folded(all.take(k as int)),
    {
        let ghost h = all.take(k as int);
        let ghost l = line(headers@[k as int]);
        proof {
            lemma_take_push(all, k as int);
        }
        let name: &str = headers[k].0.as_str();
        let mut at: Option<usize> = None;
        let mut i: usize = 0;
        while i < r.len() && at.is_none()
            invariant
                lines(r@) == folded(h),
                name@ == l.0,
                i <= r@.len(),
                at matches Some(a) ==> a < r@.len() && same_name(lines(r@)[a as int].0, l.0),
                at is None ==> forall|j: int|
                    0 <= j < i ==> !same_name((#[trigger] lines(r@)[j]).0, l.0),
            decreases r@.len() - i + (if at is None {
                    1int
                } else {
                    0int
                }),
        {
            assert(lines(r@)[i as int].0 == r@[i as int].0@);
            if r[i].0.as_str().eq_ignore_ascii_case(name) {
                at = Some(i);
            } else {
                i = i + 1;
            }
        }
        match at {
            None => {
                proof {
                    each_name_once(h);
                    if occurs(l.0, h) {
                        let j = choose|j: int|
                            0 <= j < first_seen(h).len() && same_name(
                                #[trigger] first_seen(h)[j],
                                l.0,
                            );
                        assert(same_name(lines(r@)[j].0, l.0));
                    }
                    lemma_fold_new(h, l);
                }
                let ghost before = r@;
                let own_name = copy_text(name);
                let own_value = copy_bytes(headers[k].1.as_slice());
                r.push((own_name, own_value));
                assert(lines(r@) =~= lines(before).push(l));
            },
            Some(a) => {
                proof {
                    lemma_fold_known(h, l, a as int);
                }
                let ghost before = r@;
                assert(lines(before)[a as int] == line(before[a as int]));
                if let Some(sep) = field_line_separator(r[a].0.as_str()) {
                    let mut joined = copy_bytes(r[a].1.as_slice());
                    let mut tail = copy_bytes(sep.as_slice());
                    let mut value = copy_bytes(headers[k].1.as_slice());
                    joined.append(&mut tail);
                    joined.append(&mut value);
                    let spelling = copy_text(r[a].0.as_str());
                    r.set(a, (spelling, joined));
                    assert(lines(r@) =~= lines(before).update(
                        a as int,
                        (spelling@, joined@),
                    ));
                }
            },
        }
    }
    proof {
        lemma_take_all(all);
    }
    r
}

/// Folding what is already folded changes nothing.
pub proof fn folding_is_idempotent(h: Seq<Line>)
    ensures
        folded(folded(h)) == folded(h),
{
    each_name_once(h);
    lemma_fold_distinct(folded(h), folded(h).len() as int);
    lemma_take_all(folded(h));
}

/// Lines with distinct names fold to themselves.
proof fn lemma_fold_distinct(h: Seq<Line>, n: int)
    requires
        0 <= n <= h.len(),
        forall|i: int, j: int|
            #![trigger h[i], h[j]]
            0 <= i < j < h.len() ==> !same_name(h[i].0, h[j].0),
    ensures
        folded(h.take(n)) == h.take(n),
    decreases n,
{
    if n == 0 {
        assert(folded(h.take(0)) =~= h.take(0));
    } else {
        lemma_fold_distinct(h, n - 1);
        lemma_take_push(h, n - 1);
        let p = h.take(n - 1);
        let l = h[n - 1];
        assert(!occurs(l.0, p)) by {
            if occurs(l.0, p) {
                let k = choose|k: int| 0 <= k < p.len() && same_name((#[trigger] p[k]).0, l.0);
                assert(h[k] == p[k]);
                assert(!same_name(h[k].0, h[n - 1].0));
            }
        }
        lemma_fold_new(p, l);
    }
}

} // verus!
