//! Which files may be sent: containment is by whole names, and a slice lies
//! within its file.

use vstd::prelude::*;
use crate::pieces::{cut, lemma_cut_joined};
use crate::seqs::lemma_filter_push;
use crate::sendfile::{
    candidate_fault, components, dot, inside, names_something, opened_fault, path_start, FileFault,
    FileMeta,
};

verus! {

/// The name of a file or directory: not empty, no slash in it, and not the
/// current directory.
pub open spec fn plain_component(n: Seq<u8>) -> bool {
    n.len() > 0 && n != seq![46u8] && forall|i: int| 0 <= i < n.len() ==> #[trigger] n[i] != 47
}

/// A byte string without a separator is one piece.
pub proof fn lemma_one_piece(n: Seq<u8>, sep: u8)
    requires
        forall|i: int| 0 <= i < n.len() ==> #[trigger] n[i] != sep,
    ensures
        cut(n, sep) == seq![n],
    decreases n.len(),
{
    if n.len() == 0 {
        assert(n =~= Seq::empty());
    } else {
        let t = n.drop_last();
        assert forall|i: int| 0 <= i < t.len() implies #[trigger] t[i] != sep by {
            assert(t[i] == n[i]);
        }
        lemma_one_piece(t, sep);
        assert(n[n.len() - 1] != sep);
        assert(cut(n, sep) =~= seq![n]) by {
            assert(t.push(n.last()) =~= n);
        }
    }
}

/// What a path starts with does not change when a name is added to it.
proof fn lemma_start_stays(base: Seq<u8>, rest: Seq<u8>)
    requires
        base.len() > 0,
    ensures
        path_start(base + seq![47u8] + rest) == path_start(base),
{
    let p = base + seq![47u8] + rest;
    assert(p[0] == base[0]);
    lemma_cut_joined(base, rest, 47);
    crate::pieces::lemma_cut_pieces(base, 47);
    assert((cut(base, 47) + cut(rest, 47))[0] == cut(base, 47)[0]);
}

/// A name below a base is one more component.
pub proof fn a_name_is_one_more_component(base: Seq<u8>, name: Seq<u8>)
    requires
        base.len() > 0,
        plain_component(name),
    ensures
        components(base + seq![47u8] + name) == components(base).push(name),
{
    let keep = |n: Seq<u8>| names_something(n);
    lemma_one_piece(name, 47);
    lemma_cut_joined(base, name, 47);
    assert(cut(base, 47) + cut(name, 47) =~= cut(base, 47).push(name));
    lemma_filter_push(cut(base, 47), name, keep);
    lemma_start_stays(base, name);
    assert(dot() =~= seq![46u8]);
    assert(components(base + seq![47u8] + name) =~= components(base).push(name));
}

/// A trailing or repeated slash, and the current directory, add nothing.
pub proof fn slashes_and_dots_add_nothing(base: Seq<u8>)
    requires
        base.len() > 0,
    ensures
        components(base + seq![47u8]) == components(base),
        components(base + seq![47u8] + seq![46u8]) == components(base),
{
    let keep = |n: Seq<u8>| names_something(n);
    let none = Seq::<u8>::empty();
    lemma_one_piece(none, 47);
    lemma_cut_joined(base, none, 47);
    assert(base + seq![47u8] + none =~= base + seq![47u8]);
    assert(cut(base, 47) + cut(none, 47) =~= cut(base, 47).push(none));
    lemma_filter_push(cut(base, 47), none, keep);
    lemma_start_stays(base, none);
    assert(components(base + seq![47u8]) =~= components(base));
    let here = seq![46u8];
    assert(here[0] != 47);
    lemma_one_piece(here, 47);
    lemma_cut_joined(base, here, 47);
    assert(cut(base, 47) + cut(here, 47) =~= cut(base, 47).push(here));
    lemma_filter_push(cut(base, 47), here, keep);
    lemma_start_stays(base, here);
    assert(dot() =~= here);
    assert(components(base + seq![47u8] + here) =~= components(base));
}

/// What lies below a base lies inside it, and a base lies inside itself.
pub proof fn a_name_below_lies_inside(base: Seq<u8>, name: Seq<u8>)
    requires
        base.len() > 0,
        plain_component(name),
    ensures
        inside(base, base),
        inside(base + seq![47u8] + name, base),
        !inside(base, base + seq![47u8] + name),
{
    a_name_is_one_more_component(base, name);
    let b = components(base);
    let p = components(base + seq![47u8] + name);
    assert(b.subrange(0, b.len() as int) =~= b);
    assert(p.subrange(0, b.len() as int) =~= b);
}

/// A sibling lies outside, also where its name starts with the base's: two
/// different names in one directory never hold each other, nor what is below
/// them.
pub proof fn a_sibling_lies_outside(dir: Seq<u8>, a: Seq<u8>, b: Seq<u8>, below: Seq<u8>)
    requires
        dir.len() > 0,
        plain_component(a),
        plain_component(b),
        a != b,
        plain_component(below),
    ensures
        !inside(dir + seq![47u8] + b, dir + seq![47u8] + a),
        !inside(dir + seq![47u8] + b + seq![47u8] + below, dir + seq![47u8] + a),
{
    a_name_is_one_more_component(dir, a);
    a_name_is_one_more_component(dir, b);
    a_name_is_one_more_component(dir + seq![47u8] + b, below);
    let n = components(dir).len() as int;
    let x = components(dir + seq![47u8] + a);
    let y = components(dir + seq![47u8] + b);
    let z = components(dir + seq![47u8] + b + seq![47u8] + below);
    assert(x[n] == a && y[n] == b && z[n] == b);
    if inside(dir + seq![47u8] + b, dir + seq![47u8] + a) {
        assert(y.subrange(0, x.len() as int)[n] == x[n]);
    }
    if inside(dir + seq![47u8] + b + seq![47u8] + below, dir + seq![47u8] + a) {
        assert(z.subrange(0, x.len() as int)[n] == x[n]);
    }
}

/// A path that starts at the root is never inside one that does not, and the
/// other way round only under an empty base.
pub proof fn relative_and_absolute_paths_do_not_mix(path: Seq<u8>, base: Seq<u8>)
    requires
        path.len() > 0,
        base.len() > 0,
        base[0] == 47,
        path[0] != 47,
    ensures
        !inside(path, base),
{
    let b = components(base);
    let p = components(path);
    assert(b[0] == seq![47u8]);
    if inside(path, base) {
        assert(p.subrange(0, b.len() as int)[0] == b[0]);
        crate::pieces::lemma_cut_pieces(path, 47);
        let c = cut(path, 47);
        let keep = |n: Seq<u8>| names_something(n);
        if path_start(path).len() > 0 {
            assert(p[0] == dot());
            assert(dot()[0] == 46);
            assert(b[0][0] == 47);
        } else {
            let f = c.filter(keep);
            assert(p =~= f);
            c.lemma_filter_contains_rev(keep, f[0]);
            let i = choose|i: int| 0 <= i < c.len() && c[i] == f[0];
            assert(!c[i].contains(47u8));
            assert(f[0][0] == 47);
            assert(f[0].contains(47u8));
        }
    }
}

/// A path may be opened exactly when it could be resolved, a root is configured,
/// and the path lies inside it; the reasons are told in that order.
pub proof fn only_files_inside_the_root_are_opened(
    canonical: Option<Seq<u8>>,
    root: Option<Seq<u8>>,
)
    ensures
        candidate_fault(canonical, root) is None <==> canonical is Some && root is Some && inside(
            canonical->0,
            root->0,
        ),
        canonical is None ==> candidate_fault(canonical, root) == Some(FileFault::Unreadable),
        canonical is Some && root is None ==> candidate_fault(canonical, root) == Some(
            FileFault::NoRoot,
        ),
        canonical is Some && root is Some && !inside(canonical->0, root->0) ==> candidate_fault(
            canonical,
            root,
        ) == Some(FileFault::OutsideRoot),
{
}

/// An open file may be sent exactly when the path that the kernel holds for it
/// is still inside the root, it is a regular file, and the slice lies within it.
pub proof fn only_regular_files_inside_the_root_are_sent(
    held: Option<Seq<u8>>,
    root: Seq<u8>,
    meta: Option<FileMeta>,
    offset: u64,
    length: Option<u64>,
)
    ensures
        ({
            let fault = opened_fault(held, root, meta, offset, length);
            let end = match length {
                Some(l) => offset + l,
                None => offset as int,
            };
            &&& fault is None <==> held is Some && inside(held->0, root) && meta is Some
                && meta->0.regular && end <= meta->0.size && offset <= meta->0.size
            &&& held is None ==> fault == Some(FileFault::Unreadable)
            &&& held is Some && !inside(held->0, root) ==> fault == Some(FileFault::OutsideRoot)
            &&& held is Some && inside(held->0, root) && meta is None ==> fault == Some(
                FileFault::Unreadable,
            )
            &&& held is Some && inside(held->0, root) && meta is Some && !meta->0.regular ==> fault
                == Some(FileFault::NotRegular)
            &&& held is Some && inside(held->0, root) && meta is Some && meta->0.regular && end
                > meta->0.size ==> fault == Some(FileFault::SliceTooLong)
        }),
{
}

} // verus!
