//! Cutting byte strings at a separator.

use vstd::prelude::*;
use crate::seqs::{lemma_take_all, lemma_take_push};
use crate::spool::paths;

verus! {

/// A byte string cut at every separator; there is always a last piece.
pub open spec fn cut(p: Seq<u8>, sep: u8) -> Seq<Seq<u8>>
    decreases p.len(),
{
    if p.len() == 0 {
        seq![Seq::empty()]
    } else {
        let q = cut(p.drop_last(), sep);
        if p.last() == sep {
            q.push(Seq::empty())
        } else {
            q.update(q.len() - 1, q.last().push(p.last()))
        }
    }
}

/// No piece holds the separator.
pub proof fn lemma_cut_pieces(p: Seq<u8>, sep: u8)
    ensures
        cut(p, sep).len() > 0,
        forall|i: int| 0 <= i < cut(p, sep).len() ==> !(#[trigger] cut(p, sep)[i]).contains(sep),
    decreases p.len(),
{
    if p.len() > 0 {
        lemma_cut_pieces(p.drop_last(), sep);
        let q = cut(p.drop_last(), sep);
        assert forall|i: int| 0 <= i < cut(p, sep).len() implies !(#[trigger] cut(
            p,
            sep,
        )[i]).contains(sep) by {
            if p.last() != sep && i == q.len() - 1 {
                assert(!q[i].contains(sep));
                let piece = q[i].push(p.last());
                assert forall|k: int| 0 <= k < piece.len() implies piece[k] != sep by {
                    if k < q[i].len() {
                        assert(q[i].contains(q[i][k]));
                    }
                }
            }
        }
    }
}

/// Two byte strings with a separator between them are cut as each is by itself.
pub proof fn lemma_cut_joined(a: Seq<u8>, b: Seq<u8>, sep: u8)
    ensures
        cut(a + seq![sep] + b, sep) == cut(a, sep) + cut(b, sep),
    decreases b.len(),
{
    let p = a + seq![sep] + b;
    if b.len() == 0 {
        assert(p.drop_last() =~= a);
        assert(cut(p, sep) =~= cut(a, sep) + cut(b, sep));
    } else {
        lemma_cut_joined(a, b.drop_last(), sep);
        assert(p.drop_last() =~= a + seq![sep] + b.drop_last());
        lemma_cut_pieces(b.drop_last(), sep);
        assert(cut(p, sep) =~= cut(a, sep) + cut(b, sep));
    }
}

/// Cuts a byte string at every separator.
pub fn cut_bytes(p: &[u8], sep: u8) -> (r: Vec<Vec<u8>>)
    ensures
        paths(r@) == cut(p@, sep),
        r@.len() > 0,
{
    let mut r: Vec<Vec<u8>> = Vec::new();
    let mut last: Vec<u8> = Vec::new();
    assert(p@.take(0) =~= Seq::empty());
    assert(last@ =~= Seq::<u8>::empty());
    assert(paths(r@).push(last@) =~= cut(p@.take(0), sep));
    for i in 0..p.len()
        invariant
            paths(r@).push(last@) == cut(p@.take(i as int), sep),
    {
        let ghost q = cut(p@.take(i as int), sep);
        proof {
            lemma_take_push(p@, i as int);
            assert(p@.take(i + 1).drop_last() =~= p@.take(i as int));
        }
        if p[i] == sep {
            let ghost before = r@;
            let ghost piece = last@;
            r.push(last);
            last = Vec::new();
            assert(paths(r@) =~= paths(before).push(piece));
            assert(paths(r@).push(last@) =~= q.push(Seq::empty()));
        } else {
            last.push(p[i]);
            assert(paths(r@).push(last@) =~= q.update(q.len() - 1, q.last().push(p@[i as int])));
        }
    }
    proof {
        lemma_take_all(p@);
    }
    let ghost before = r@;
    let ghost piece = last@;
    r.push(last);
    assert(paths(r@) =~= paths(before).push(piece));
    r
}

} // verus!
