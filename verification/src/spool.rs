//! Spooled uploads: files the host wrote for one unit and removes with it.

use vstd::prelude::*;
use crate::seqs::{lemma_filter_push, lemma_take_all, lemma_take_push};

verus! {

/// A file part spooled by the host; an empty path is one already removed.
pub struct SpooledFile {
    pub path: Vec<u8>,
}

/// The contents of a list of byte strings.
pub open spec fn paths(s: Seq<Vec<u8>>) -> Seq<Seq<u8>> {
    s.map_values(|p: Vec<u8>| p@)
}

/// The paths of a list of spooled files.
pub open spec fn spool_paths(s: Seq<SpooledFile>) -> Seq<Seq<u8>> {
    s.map_values(|f: SpooledFile| f.path@)
}

/// The paths that are still to be removed.
pub open spec fn live_paths(s: Seq<Seq<u8>>) -> Seq<Seq<u8>> {
    s.filter(|p: Seq<u8>| p.len() > 0)
}

impl SpooledFile {
    /// Takes the path for removal, so that a second call gives nothing and a
    /// recycled file name is never removed twice.
    pub fn unlink(&mut self) -> (r: Option<Vec<u8>>)
        ensures
            final(self).path@.len() == 0,
            r is Some <==> old(self).path@.len() > 0,
            r matches Some(p) ==> p@ == old(self).path@,
    {
        let mut path: Vec<u8> = Vec::new();
        path.append(&mut self.path);
        assert(path@ =~= old(self).path@);
        if path.len() == 0 {
            None
        } else {
            Some(path)
        }
    }
}

/// Takes every path that is still to be removed; the list is empty afterwards.
pub fn unlink_all(spools: &mut Vec<SpooledFile>) -> (r: Vec<Vec<u8>>)
    ensures
        final(spools)@ == Seq::<SpooledFile>::empty(),
        paths(r@) == live_paths(spool_paths(old(spools)@)),
{
    let mut taken: Vec<SpooledFile> = Vec::new();
    taken.append(spools);
    assert(taken@ =~= old(spools)@);
    let ghost all = spool_paths(taken@);
    let ghost live = |p: Seq<u8>| p.len() > 0;
    let mut r: Vec<Vec<u8>> = Vec::new();
    proof {
        reveal(Seq::filter);
        assert(paths(r@) =~= all.take(0).filter(live));
    }
    for f in it: taken
        invariant
            all == spool_paths(it.seq()),
            live == (|p: Seq<u8>| p.len() > 0),
            paths(r@) == all.take(it.index() as int).filter(live),
    {
        let mut f: SpooledFile = f;
        let ghost path = f.path@;
        let ghost before = r@;
        proof {
            lemma_take_push(all, it.index() as int);
            lemma_filter_push(all.take(it.index() as int), path, live);
        }
        if let Some(p) = f.unlink() {
            r.push(p);
            assert(paths(r@) =~= paths(before).push(path));
        }
    }
    proof {
        lemma_take_all(all);
    }
    r
}

/// Every file that has a path left is removed, in order, and no other.
pub proof fn every_spooled_file_is_removed(s: Seq<Seq<u8>>, p: Seq<u8>)
    ensures
        live_paths(Seq::empty()) == Seq::<Seq<u8>>::empty(),
        live_paths(s.push(p)) == if p.len() > 0 {
            live_paths(s).push(p)
        } else {
            live_paths(s)
        },
{
    reveal(Seq::filter);
    crate::seqs::lemma_filter_push(s, p, |x: Seq<u8>| x.len() > 0);
    assert(live_paths(Seq::empty()) =~= Seq::<Seq<u8>>::empty());
}

} // verus!
