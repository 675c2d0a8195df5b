//! The rules of sending a file: what may be sent, and which part of it. The
//! caller walks the file system; each answer it gets is judged here.

use vstd::prelude::*;
use crate::fields::same_bytes;
use crate::pieces::{cut, cut_bytes};
use crate::seqs::{lemma_filter_push, lemma_take_all, lemma_take_push};
use crate::spool::paths;
use crate::verbs::ArgFault;

verus! {

/// Why a file cannot be sent.
#[derive(Clone, Copy, Debug, PartialEq, Eq, Structural)]
pub enum FileFault {
    /// Nothing readable at the path.
    Unreadable,
    /// No root is configured.
    NoRoot,
    /// The path leads out of the root.
    OutsideRoot,
    NotRegular,
    /// The slice runs past the end of the file.
    SliceTooLong,
}

impl FileFault {
    /// The wording of the message.
    pub open spec fn text(self) -> Seq<char> {
        match self {
            FileFault::Unreadable => "no readable file at the path"@,
            FileFault::NoRoot => "no sendfile root is configured"@,
            FileFault::OutsideRoot => "the path is outside the configured sendfile root"@,
            FileFault::NotRegular => "not a regular file"@,
            FileFault::SliceTooLong => "the requested slice runs past the end of the file"@,
        }
    }

    /// The message that goes with the fault.
    pub fn message(self) -> (m: &'static str)
        ensures
            m@ == self.text(),
    {
        match self {
            FileFault::Unreadable => "no readable file at the path",
            FileFault::NoRoot => "no sendfile root is configured",
            FileFault::OutsideRoot => "the path is outside the configured sendfile root",
            FileFault::NotRegular => "not a regular file",
            FileFault::SliceTooLong => "the requested slice runs past the end of the file",
        }
    }
}

/// The name of the current directory.
pub open spec fn dot() -> Seq<u8> {
    seq![0x2eu8]
}

/// A piece of a path that names something: not empty, not the current
/// directory.
pub open spec fn names_something(n: Seq<u8>) -> bool {
    n.len() > 0 && n != dot()
}

/// What a path starts with before its names: the root, the current directory
/// or nothing.
pub open spec fn path_start(p: Seq<u8>) -> Seq<Seq<u8>> {
    if p.len() > 0 && p[0] == 0x2f {
        seq![seq![0x2fu8]]
    } else if cut(p, 0x2f)[0] == dot() {
        seq![dot()]
    } else {
        Seq::empty()
    }
}

/// The components of a path. Repeated and trailing slashes do not count, nor
/// does the current directory but at the start.
pub open spec fn components(p: Seq<u8>) -> Seq<Seq<u8>> {
    path_start(p) + cut(p, 0x2f).filter(|n: Seq<u8>| names_something(n))
}

/// Whether a path lies at or below a base, component by component.
pub open spec fn inside(path: Seq<u8>, base: Seq<u8>) -> bool {
    components(base).is_prefix_of(components(path))
}

fn is_dot(n: &[u8]) -> (r: bool)
    ensures
        r == (n@ == dot()),
{
    let r = n.len() == 1 && n[0] == 0x2e;
    if r {
        assert(n@ =~= dot());
    }
    r
}

/// The components of a path.
pub fn path_components(p: &[u8]) -> (r: Vec<Vec<u8>>)
    ensures
        paths(r@) == components(p@),
{
    let pieces = cut_bytes(p, 0x2f);
    let ghost all = cut(p@, 0x2f);
    let ghost keep = |n: Seq<u8>| names_something(n);
    let mut r: Vec<Vec<u8>> = Vec::new();
    if p.len() > 0 && p[0] == 0x2f {
        let mut root: Vec<u8> = Vec::new();
        root.push(0x2f);
        assert(root@ =~= seq![0x2fu8]);
        r.push(root);
    } else {
        assert(paths(pieces@)[0] == pieces@[0]@);
        if is_dot(pieces[0].as_slice()) {
            let mut here: Vec<u8> = Vec::new();
            here.push(0x2e);
            assert(here@ =~= dot());
            r.push(here);
        }
    }
    assert(paths(r@) =~= path_start(p@));
    proof {
        reveal(Seq::filter);
        assert(all.take(0).filter(keep) =~= Seq::empty());
        assert(paths(r@) =~= path_start(p@) + all.take(0).filter(keep));
    }
    for n in it: pieces
        invariant
            all == paths(it.seq()),
            keep == (|n: Seq<u8>| names_something(n)),
            paths(r@) == path_start(p@) + all.take(it.index() as int).filter(keep),
    {
        let ghost before = r@;
        let ghost name = n@;
        proof {
            lemma_take_push(all, it.index() as int);
            lemma_filter_push(all.take(it.index() as int), name, keep);
        }
        if n.len() > 0 && !is_dot(n.as_slice()) {
            r.push(n);
            assert(paths(r@) =~= paths(before).push(name));
            assert(paths(r@) =~= path_start(p@) + all.take(it.index() as int + 1).filter(keep));
        }
    }
    proof {
        lemma_take_all(all);
    }
    r
}

/// Whether a path lies at or below a base, component by component.
pub fn path_inside(path: &[u8], base: &[u8]) -> (r: bool)
    ensures
        r == inside(path@, base@),
{
    let whole = path_components(path);
    let start = path_components(base);
    assert(components(path@).len() == whole@.len());
    assert(components(base@).len() == start@.len());
    if start.len() > whole.len() {
        return false;
    }
    for i in 0..start.len()
        invariant
            paths(whole@) == components(path@),
            paths(start@) == components(base@),
            start@.len() <= whole@.len(),
            forall|k: int| 0 <= k < i ==> components(base@)[k] == components(path@)[k],
    {
        assert(paths(start@)[i as int] == start@[i as int]@);
        assert(paths(whole@)[i as int] == whole@[i as int]@);
        if !same_bytes(start[i].as_slice(), whole[i].as_slice()) {
            assert(components(path@).subrange(0, components(base@).len() as int)[i as int]
                != components(base@)[i as int]);
            return false;
        }
    }
    assert(components(path@).subrange(0, components(base@).len() as int) =~= components(base@));
    true
}

/// The judgement on a path before the file is opened. `canonical` is the path
/// with every link resolved, if that could be done; `root` is the configured
/// root, if there is one.
pub open spec fn candidate_fault(
    canonical: Option<Seq<u8>>,
    root: Option<Seq<u8>>,
) -> Option<FileFault> {
    if canonical is None {
        Some(FileFault::Unreadable)
    } else if root is None {
        Some(FileFault::NoRoot)
    } else if !inside(canonical->0, root->0) {
        Some(FileFault::OutsideRoot)
    } else {
        None
    }
}

/// The content of an optional byte string.
pub open spec fn content(b: Option<Vec<u8>>) -> Option<Seq<u8>> {
    match b {
        Some(b) => Some(b@),
        None => None,
    }
}

/// Judges a path before the file is opened; `Ok` names the path to open.
pub fn admit_candidate(canonical: Option<Vec<u8>>, root: &Option<Vec<u8>>) -> (r: Result<
    Vec<u8>,
    FileFault,
>)
    ensures
        match candidate_fault(content(canonical), content(*root)) {
            Some(f) => r == Err::<Vec<u8>, FileFault>(f),
            None => r matches Ok(p) && canonical == Some(p),
        },
{
    match canonical {
        None => Err(FileFault::Unreadable),
        Some(path) => match root {
            None => Err(FileFault::NoRoot),
            Some(root) => {
                if path_inside(path.as_slice(), root.as_slice()) {
                    Ok(path)
                } else {
                    Err(FileFault::OutsideRoot)
                }
            },
        },
    }
}

/// What an open file reports about itself.
#[derive(Clone, Copy, Debug, PartialEq, Eq, Structural)]
pub struct FileMeta {
    pub regular: bool,
    pub size: u64,
}

/// The judgement on an open file: the path the kernel holds for it must still
/// lie inside the root, it must be regular, and the slice must lie within it.
pub open spec fn opened_fault(
    held: Option<Seq<u8>>,
    root: Seq<u8>,
    meta: Option<FileMeta>,
    offset: u64,
    length: Option<u64>,
) -> Option<FileFault> {
    if held is None {
        Some(FileFault::Unreadable)
    } else if !inside(held->0, root) {
        Some(FileFault::OutsideRoot)
    } else if meta is None {
        Some(FileFault::Unreadable)
    } else if !meta->0.regular {
        Some(FileFault::NotRegular)
    } else if offset > meta->0.size {
        Some(FileFault::SliceTooLong)
    } else if length matches Some(l) && offset + l > meta->0.size {
        Some(FileFault::SliceTooLong)
    } else {
        None
    }
}

/// Judges an open file; `Ok` is the length of the slice to send, the rest of the
/// file where none is asked for.
pub fn admit_opened(
    held: Option<Vec<u8>>,
    root: &[u8],
    meta: Option<FileMeta>,
    offset: u64,
    length: Option<u64>,
) -> (r: Result<u64, FileFault>)
    ensures
        match opened_fault(content(held), root@, meta, offset, length) {
            Some(f) => r == Err::<u64, FileFault>(f),
            None => r == Ok::<u64, FileFault>(
                match length {
                    Some(l) => l,
                    None => (meta->0.size - offset) as u64,
                },
            ),
        },
{
    let held: Vec<u8> = match held {
        None => {
            return Err(FileFault::Unreadable);
        },
        Some(held) => held,
    };
    if !path_inside(held.as_slice(), root) {
        return Err(FileFault::OutsideRoot);
    }
    let meta: FileMeta = match meta {
        None => {
            return Err(FileFault::Unreadable);
        },
        Some(meta) => meta,
    };
    if !meta.regular {
        return Err(FileFault::NotRegular);
    }
    if offset > meta.size {
        return Err(FileFault::SliceTooLong);
    }
    match length {
        Some(l) => {
            if l > meta.size - offset {
                Err(FileFault::SliceTooLong)
            } else {
                Ok(l)
            }
        },
        None => Ok(meta.size - offset),
    }
}

/// What a slice call asks for: where it starts and, if stated, how long it is.
pub fn slice_args(offset: i64, length: Option<i64>) -> (r: Result<(u64, Option<u64>), ArgFault>)
    ensures
        r == (if offset < 0 {
            Err::<(u64, Option<u64>), ArgFault>(ArgFault::NegativeOffset)
        } else {
            match length {
                Some(l) => if l < 1 {
                    Err(ArgFault::EmptyLength)
                } else {
                    Ok((offset as u64, Some(l as u64)))
                },
                None => Ok((offset as u64, None)),
            }
        }),
{
    if offset < 0 {
        return Err(ArgFault::NegativeOffset);
    }
    match length {
        Some(l) => {
            if l < 1 {
                Err(ArgFault::EmptyLength)
            } else {
                Ok((offset as u64, Some(l as u64)))
            }
        },
        None => Ok((offset as u64, None)),
    }
}

/// A slice that is sent lies within its file.
pub proof fn a_sent_slice_lies_within_the_file(
    held: Option<Seq<u8>>,
    root: Seq<u8>,
    meta: Option<FileMeta>,
    offset: u64,
    length: Option<u64>,
)
    requires
        opened_fault(held, root, meta, offset, length) is None,
    ensures
        ({
            let len = match length {
                Some(l) => l as int,
                None => meta->0.size - offset,
            };
            0 <= len && offset + len <= meta->0.size
        }),
        inside(held->0, root),
        meta->0.regular,
{
}

/// Containment is by whole components: whatever lies inside a base lies inside
/// every base around it.
pub proof fn containment_nests(path: Seq<u8>, inner: Seq<u8>, outer: Seq<u8>)
    requires
        inside(path, inner),
        inside(inner, outer),
    ensures
        inside(path, outer),
{
    let p = components(path);
    let i = components(inner);
    let o = components(outer);
    assert forall|k: int| 0 <= k < o.len() implies o[k] == p[k] by {
        assert(o[k] == i.subrange(0, o.len() as int)[k]);
        assert(i[k] == p.subrange(0, i.len() as int)[k]);
    }
    assert(p.subrange(0, o.len() as int) =~= o);
}

/// What the kernel appends to the path of a file that was removed.
pub open spec fn deleted_mark() -> Seq<u8> {
    vstd::utf8::encode_utf8(" (deleted)"@)
}

/// Whether one byte string ends with another.
pub open spec fn ends_with(p: Seq<u8>, tail: Seq<u8>) -> bool {
    tail.len() <= p.len() && p.skip(p.len() - tail.len()) == tail
}

/// The path that the kernel holds for an open file, from what it reads back; a
/// file that was removed has none.
pub fn fd_path(read_back: Option<Vec<u8>>) -> (r: Option<Vec<u8>>)
    ensures
        r == (match read_back {
            Some(p) => if ends_with(p@, deleted_mark()) {
                None
            } else {
                Some(p)
            },
            None => None,
        }),
{
    match read_back {
        None => None,
        Some(p) => {
            let mark: &[u8] = " (deleted)".as_bytes();
            if mark.len() > p.len() {
                return Some(p);
            }
            let from: usize = p.len() - mark.len();
            let tail = crate::fields::copy_range(p.as_slice(), from, p.len());
            assert(tail@ =~= p@.skip(p@.len() - deleted_mark().len()));
            if same_bytes(tail.as_slice(), mark) {
                None
            } else {
                Some(p)
            }
        },
    }
}

/// The root that files must stay inside, once it was resolved. One that cannot
/// be resolved is kept as it was given.
pub struct SendfileRoot {
    pub root: Option<Vec<u8>>,
}

impl SendfileRoot {
    /// Sets the root; `canonical` is its resolved form, if it has one.
    pub fn set_sendfile_root(&mut self, root: Vec<u8>, canonical: Option<Vec<u8>>)
        ensures
            final(self).root == Some(
                match canonical {
                    Some(c) => c,
                    None => root,
                },
            ),
    {
        self.root = match canonical {
            Some(c) => Some(c),
            None => Some(root),
        };
    }

    /// The root; none was set means that nothing may be sent.
    pub fn sendfile_root(&self) -> (r: &Option<Vec<u8>>)
        ensures
            *r == self.root,
    {
        &self.root
    }
}

} // verus!
