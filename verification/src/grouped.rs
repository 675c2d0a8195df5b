//! Field lines grouped by name, for scripts that look fields up.

use vstd::prelude::*;
use vstd::utf8::encode_utf8;
use crate::cgi::{has_nul, holds_nul};
use crate::fields::{copy_bytes, line, lines, same_bytes, Line};
use crate::seqs::{lemma_filter_push, lemma_take_all, lemma_take_push};
use crate::spool::paths;

verus! {

/// Values by name: names byte for byte, in the order first seen; values in wire
/// order. No name is empty or holds a NUL byte, and none occurs twice.
pub struct Grouped {
    pub entries: Vec<(Vec<u8>, Vec<Vec<u8>>)>,
}

/// A name as bytes, with its values.
pub type Group = (Seq<u8>, Seq<Seq<u8>>);

/// A field line with its name as bytes.
pub type ByteLine = (Seq<u8>, Seq<u8>);

impl View for Grouped {
    type V = Seq<Group>;

    open spec fn view(&self) -> Seq<Group> {
        groups(self.entries@)
    }
}

/// The content of a list of groups.
pub open spec fn groups(e: Seq<(Vec<u8>, Vec<Vec<u8>>)>) -> Seq<Group> {
    e.map_values(|g: (Vec<u8>, Vec<Vec<u8>>)| (g.0@, paths(g.1@)))
}

/// Field lines with their names as bytes.
pub open spec fn byte_lines(h: Seq<Line>) -> Seq<ByteLine> {
    h.map_values(|l: Line| (encode_utf8(l.0), l.1))
}

/// A name that can be a key.
pub open spec fn usable(name: Seq<u8>) -> bool {
    name.len() > 0 && !has_nul(name)
}

/// Whether a line has that name.
pub open spec fn named(h: Seq<ByteLine>, name: Seq<u8>) -> bool {
    exists|i: int| 0 <= i < h.len() && (#[trigger] h[i]).0 == name
}

/// The usable names, each once, in the order first seen.
pub open spec fn keys(h: Seq<ByteLine>) -> Seq<Seq<u8>>
    decreases h.len(),
{
    if h.len() == 0 {
        Seq::empty()
    } else if usable(h.last().0) && !named(h.drop_last(), h.last().0) {
        keys(h.drop_last()).push(h.last().0)
    } else {
        keys(h.drop_last())
    }
}

/// The lines of one name.
pub open spec fn has_name(name: Seq<u8>) -> spec_fn(ByteLine) -> bool {
    |l: ByteLine| l.0 == name
}

/// The values of one name, in wire order.
pub open spec fn values_of(h: Seq<ByteLine>, name: Seq<u8>) -> Seq<Seq<u8>> {
    h.filter(has_name(name)).map_values(|l: ByteLine| l.1)
}

/// The groups of a field list.
pub open spec fn grouped(h: Seq<Line>) -> Seq<Group> {
    grouping(byte_lines(h))
}

/// The groups of a list of lines with byte names.
pub open spec fn grouping(h: Seq<ByteLine>) -> Seq<Group> {
    keys(h).map_values(|k: Seq<u8>| (k, values_of(h, k)))
}

/// The keys are the usable names that occur, without repeats.
pub proof fn keys_are_the_names(h: Seq<ByteLine>)
    ensures
        keys(h).no_duplicates(),
        forall|k: Seq<u8>| #[trigger] keys(h).contains(k) <==> usable(k) && named(h, k),
    decreases h.len(),
{
    if h.len() > 0 {
        let p = h.drop_last();
        let l = h.last();
        keys_are_the_names(p);
        assert forall|k: Seq<u8>| #[trigger] keys(h).contains(k) <==> usable(k) && named(h, k) by {
            assert(named(h, k) <==> named(p, k) || l.0 == k) by {
                if named(p, k) {
                    let i = choose|i: int| 0 <= i < p.len() && (#[trigger] p[i]).0 == k;
                    assert(h[i].0 == k);
                }
                if l.0 == k {
                    assert(h[h.len() - 1].0 == k);
                }
                if named(h, k) && l.0 != k {
                    let i = choose|i: int| 0 <= i < h.len() && (#[trigger] h[i]).0 == k;
                    assert(p[i].0 == k);
                }
            }
            if usable(l.0) && !named(p, l.0) {
                assert(keys(h) == keys(p).push(l.0));
                if keys(p).contains(k) {
                    let i = keys(p).index_of(k);
                    assert(keys(h)[i] == k);
                }
                if k == l.0 {
                    assert(keys(h)[keys(h).len() - 1] == k);
                }
                if keys(h).contains(k) && k != l.0 {
                    let i = keys(h).index_of(k);
                    assert(keys(p)[i] == k);
                }
            }
        }
        if usable(l.0) && !named(p, l.0) {
            assert(!keys(p).contains(l.0));
            assert forall|i: int, j: int|
                0 <= i < keys(h).len() && 0 <= j < keys(h).len() && i != j implies keys(h)[i]
                != keys(h)[j] by {
                if i == keys(h).len() - 1 {
                    assert(keys(p)[j] == keys(h)[j]);
                    assert(keys(p).contains(keys(h)[j]));
                } else if j == keys(h).len() - 1 {
                    assert(keys(p)[i] == keys(h)[i]);
                    assert(keys(p).contains(keys(h)[i]));
                } else {
                    assert(keys(p)[i] == keys(h)[i]);
                    assert(keys(p)[j] == keys(h)[j]);
                }
            }
        }
    }
}

proof fn lemma_values_push(h: Seq<ByteLine>, l: ByteLine, name: Seq<u8>)
    ensures
        values_of(h.push(l), name) == if l.0 == name {
            values_of(h, name).push(l.1)
        } else {
            values_of(h, name)
        },
{
    lemma_filter_push(h, l, has_name(name));
    assert(values_of(h.push(l), name) =~= if l.0 == name {
        values_of(h, name).push(l.1)
    } else {
        values_of(h, name)
    });
}

proof fn lemma_values_none(h: Seq<ByteLine>, name: Seq<u8>)
    requires
        !named(h, name),
    ensures
        values_of(h, name) == Seq::<Seq<u8>>::empty(),
    decreases h.len(),
{
    if h.len() > 0 {
        let p = h.drop_last();
        assert(!named(p, name)) by {
            if named(p, name) {
                let i = choose|i: int| 0 <= i < p.len() && (#[trigger] p[i]).0 == name;
                assert(h[i].0 == name);
            }
        }
        lemma_values_none(p, name);
        assert(h =~= p.push(h.last()));
        assert(h[h.len() - 1].0 != name);
        lemma_values_push(p, h.last(), name);
    } else {
        reveal(Seq::filter);
        assert(values_of(h, name) =~= Seq::empty());
    }
}

/// A line whose name cannot be a key changes nothing.
pub(crate) proof fn lemma_group_skip(h: Seq<ByteLine>, l: ByteLine)
    requires
        !usable(l.0),
    ensures
        grouping(h.push(l)) == grouping(h),
{
    assert(h.push(l).drop_last() =~= h);
    keys_are_the_names(h);
    assert forall|i: int| 0 <= i < keys(h).len() implies values_of(h.push(l), keys(h)[i])
        == values_of(h, keys(h)[i]) by {
        assert(keys(h).contains(keys(h)[i]));
        lemma_values_push(h, l, keys(h)[i]);
    }
    assert(grouping(h.push(l)) =~= grouping(h));
}

/// A line with a new name opens a group.
pub(crate) proof fn lemma_group_new(h: Seq<ByteLine>, l: ByteLine)
    requires
        usable(l.0),
        !named(h, l.0),
    ensures
        grouping(h.push(l)) == grouping(h).push((l.0, seq![l.1])),
{
    assert(h.push(l).drop_last() =~= h);
    keys_are_the_names(h);
    assert forall|i: int| 0 <= i < keys(h).len() implies values_of(h.push(l), keys(h)[i])
        == values_of(h, keys(h)[i]) by {
        assert(keys(h).contains(keys(h)[i]));
        lemma_values_push(h, l, keys(h)[i]);
    }
    lemma_values_push(h, l, l.0);
    lemma_values_none(h, l.0);
    assert(Seq::<Seq<u8>>::empty().push(l.1) =~= seq![l.1]);
    assert(grouping(h.push(l)) =~= grouping(h).push((l.0, seq![l.1])));
}

/// A line with a known name joins its group.
pub(crate) proof fn lemma_group_known(h: Seq<ByteLine>, l: ByteLine, i: int)
    requires
        0 <= i < grouping(h).len(),
        grouping(h)[i].0 == l.0,
    ensures
        grouping(h.push(l)) == grouping(h).update(i, (l.0, grouping(h)[i].1.push(l.1))),
{
    assert(h.push(l).drop_last() =~= h);
    keys_are_the_names(h);
    assert(keys(h)[i] == l.0);
    assert(keys(h).contains(l.0));
    assert forall|j: int| 0 <= j < keys(h).len() implies values_of(h.push(l), keys(h)[j])
        == if j == i {
        values_of(h, l.0).push(l.1)
    } else {
        values_of(h, keys(h)[j])
    } by {
        lemma_values_push(h, l, keys(h)[j]);
    }
    assert(grouping(h.push(l)) =~= grouping(h).update(i, (l.0, grouping(h)[i].1.push(l.1))));
}

impl Grouped {
    /// The groups of a field list.
    pub fn new(headers: &[(String, Vec<u8>)]) -> (r: Grouped)
        ensures
            r@ == grouped(lines(headers@)),
    {
        let ghost all = byte_lines(lines(headers@));
        let mut out: Vec<(Vec<u8>, Vec<Vec<u8>>)> = Vec::new();
        assert(groups(out@) =~= grouping(all.take(0)));
        for k in 0..headers.len()
            invariant
                all == byte_lines(lines(headers@)),
                groups(out@) == grouping(all.take(k as int)),
        {
            let ghost h = all.take(k as int);
            let ghost l = all[k as int];
            proof {
                lemma_take_push(all, k as int);
                keys_are_the_names(h);
            }
            let name: &[u8] = headers[k].0.as_str().as_bytes();
            assert(name@ == l.0);
            if name.len() == 0 || holds_nul(name) {
                proof {
                    lemma_group_skip(h, l);
                }
            } else {
                let mut at: usize = 0;
                while at < out.len() && !same_bytes(out[at].0.as_slice(), name)
                    invariant
                        at <= out@.len(),
                        groups(out@) == grouping(h),
                        name@ == l.0,
                        forall|j: int| 0 <= j < at ==> (#[trigger] groups(out@)[j]).0 != l.0,
                    decreases out@.len() - at,
                {
                    assert(groups(out@)[at as int].0 == out@[at as int].0@);
                    at = at + 1;
                }
                let value = copy_bytes(headers[k].1.as_slice());
                let ghost before = out@;
                if at < out.len() {
                    assert(groups(out@)[at as int].0 == out@[at as int].0@);
                    proof {
                        lemma_group_known(h, l, at as int);
                    }
                    let (key, mut values): (Vec<u8>, Vec<Vec<u8>>) = out.remove(at);
                    let ghost prior = values@;
                    values.push(value);
                    assert(paths(values@) =~= paths(prior).push(value@));
                    out.insert(at, (key, values));
                    assert(groups(out@) =~= groups(before).update(
                        at as int,
                        (l.0, groups(before)[at as int].1.push(l.1)),
                    ));
                } else {
                    proof {
                        assert(!named(h, l.0)) by {
                            if named(h, l.0) {
                                assert(keys(h).contains(l.0));
                                let j = choose|j: int|
                                    0 <= j < keys(h).len() && keys(h)[j] == l.0;
                                assert(grouping(h)[j].0 == keys(h)[j]);
                                assert(grouping(h).len() == keys(h).len());
                                assert(groups(out@).len() == out@.len());
                                assert(groups(out@)[j].0 == l.0);
                            }
                        }
                        lemma_group_new(h, l);
                    }
                    let key = copy_bytes(name);
                    let mut values: Vec<Vec<u8>> = Vec::new();
                    values.push(value);
                    assert(paths(values@) =~= seq![value@]);
                    out.push((key, values));
                    assert(groups(out@) =~= groups(before).push((l.0, seq![l.1])));
                }
            }
        }
        proof {
            lemma_take_all(all);
        }
        Grouped { entries: out }
    }
}

} // verus!
