//! The response stream between a worker and the front that serves the client.

use bytes::Bytes;
use vstd::prelude::*;
use crate::fields::{lines, FieldLines, Line};
use crate::seqs::{lemma_total_add, total};

verus! {

/// `bytes::Bytes`, a shared byte string.
#[verifier::external_type_specification]
#[verifier::external_body]
pub struct ExBytes(bytes::Bytes);

/// The bytes that a `bytes::Bytes` holds.
pub uninterp spec fn bytes_content(b: bytes::Bytes) -> Seq<u8>;

/// `bytes::Bytes::copy_from_slice`: a buffer of its own with the same bytes.
#[verifier::external_body]
pub(crate) fn bytes_copy(data: &[u8]) -> (b: Bytes)
    ensures
        bytes_content(b) == data@,
{
    Bytes::copy_from_slice(data)
}

/// `bytes::Bytes::from(Vec<u8>)`: the same bytes, the vector's buffer taken over.
#[verifier::external_body]
pub(crate) fn bytes_from(data: Vec<u8>) -> (b: Bytes)
    ensures
        bytes_content(b) == data@,
{
    Bytes::from(data)
}

/// `bytes::Bytes::deref`: the bytes as a slice.
#[verifier::external_body]
pub(crate) fn bytes_slice(b: &Bytes) -> (r: &[u8])
    ensures
        r@ == bytes_content(*b),
{
    b
}

/// A response head.
pub struct ResponseHead {
    pub status: u16,
    pub headers: FieldLines,
}

/// One event of a response stream. A well-formed stream is
/// `Interim* Head? (Chunk|File)* End?`. A channel that closes without `End`
/// means the producer died. `F` is an open file.
pub enum Frame<F> {
    /// Advisory interim head (100-199, never 101); forwarded where the protocol
    /// allows, dropped otherwise.
    Interim(ResponseHead),
    /// The final head, at most once per response.
    Head {
        head: ResponseHead,
        /// The framing the consumer applies when `Some`: a declared
        /// content-length being honoured, or the computed length of a response
        /// that ends on its first body write. `None`: the consumer chooses.
        content_length: Option<u64>,
        /// No body bytes go on the wire.
        bodiless: bool,
        /// The head carried content-encoding: the body is already coded.
        body_coded: bool,
    },
    Chunk(Bytes),
    /// A file slice that the producer opened and validated; the consumer
    /// streams it and owns the handle.
    File { file: F, offset: u64, len: u64 },
    /// Terminal. Trailers ride here.
    End { trailers: FieldLines, truncated: bool },
}

/// The content of a frame.
pub enum FrameView<F> {
    Interim { status: u16, fields: Seq<Line> },
    Head {
        status: u16,
        fields: Seq<Line>,
        content_length: Option<u64>,
        bodiless: bool,
        body_coded: bool,
    },
    Chunk(Seq<u8>),
    File { file: F, offset: u64, len: u64 },
    End { trailers: Seq<Line>, truncated: bool },
}

impl<F> View for Frame<F> {
    type V = FrameView<F>;

    open spec fn view(&self) -> FrameView<F> {
        match *self {
            Frame::Interim(head) => FrameView::Interim {
                status: head.status,
                fields: lines(head.headers@),
            },
            Frame::Head { head, content_length, bodiless, body_coded } => FrameView::Head {
                status: head.status,
                fields: lines(head.headers@),
                content_length,
                bodiless,
                body_coded,
            },
            Frame::Chunk(b) => FrameView::Chunk(bytes_content(b)),
            Frame::File { file, offset, len } => FrameView::File { file, offset, len },
            Frame::End { trailers, truncated } => FrameView::End {
                trailers: lines(trailers@),
                truncated,
            },
        }
    }
}

impl<F> Frame<F> {
    /// Whether this is the final head.
    pub fn is_head(&self) -> (r: bool)
        ensures
            r == (self@ is Head),
    {
        match self {
            Frame::Head { .. } => true,
            _ => false,
        }
    }
}

/// The contents of a list of frames.
pub open spec fn frames<F>(s: Seq<Frame<F>>) -> Seq<FrameView<F>> {
    s.map_values(|f: Frame<F>| f@)
}

/// Where a response stream stands.
#[derive(Clone, Copy, Debug, PartialEq, Eq, Structural)]
pub enum Phase {
    /// Interim heads at most.
    Start,
    /// The final head is out.
    Body,
    /// The end is out.
    Ended,
    /// Not a stream that any producer may send.
    Bad,
}

/// Where a stream stands after one more frame.
pub open spec fn after<F>(p: Phase, f: FrameView<F>) -> Phase {
    match (p, f) {
        (Phase::Start, FrameView::Interim { .. }) => Phase::Start,
        (Phase::Start, FrameView::Head { .. }) => Phase::Body,
        (Phase::Body, FrameView::Chunk(_)) => Phase::Body,
        (Phase::Body, FrameView::File { .. }) => Phase::Body,
        (Phase::Start, FrameView::End { .. }) => Phase::Ended,
        (Phase::Body, FrameView::End { .. }) => Phase::Ended,
        _ => Phase::Bad,
    }
}

/// Where a stream stands.
pub open spec fn phase<F>(s: Seq<FrameView<F>>) -> Phase
    decreases s.len(),
{
    if s.len() == 0 {
        Phase::Start
    } else {
        after(phase(s.drop_last()), s.last())
    }
}

/// A stream of the shape `Interim* Head? (Chunk|File)* End?`, with nothing of a
/// body before the head.
pub open spec fn well_formed<F>(s: Seq<FrameView<F>>) -> bool {
    phase(s) != Phase::Bad
}

/// The body bytes that a frame carries.
pub open spec fn payload<F>() -> spec_fn(FrameView<F>) -> nat {
    |f: FrameView<F>|
        match f {
            FrameView::Chunk(b) => b.len(),
            FrameView::File { file, offset, len } => len as nat,
            _ => 0,
        }
}

/// The body bytes that a stream carries.
pub open spec fn body_len<F>(s: Seq<FrameView<F>>) -> nat {
    total(s, payload())
}

/// A body frame: a chunk or a file slice.
pub open spec fn body_frame<F>(f: FrameView<F>) -> bool {
    f is Chunk || f is File
}

/// The stream keeps what its head says of the body: no body frame after a
/// bodiless head, and never more bytes than the length it states.
pub open spec fn framing_kept<F>(s: Seq<FrameView<F>>) -> bool {
    forall|i: int|
        0 <= i < s.len() ==> (#[trigger] s[i] matches FrameView::Head {
            content_length,
            bodiless,
            ..
        } ==> {
            &&& content_length matches Some(n) ==> body_len(s) <= n
            &&& bodiless ==> forall|k: int| 0 <= k < s.len() ==> !body_frame(#[trigger] s[k])
        })
}

/// Where a stream stands after one more frame.
pub proof fn lemma_phase_push<F>(s: Seq<FrameView<F>>, f: FrameView<F>)
    ensures
        phase(s.push(f)) == after(phase(s), f),
{
    assert(s.push(f).drop_last() =~= s);
}

/// A prefix of a sound stream is sound, and has not ended before the last frame.
pub proof fn lemma_phase_prefix<F>(s: Seq<FrameView<F>>, i: int)
    requires
        0 <= i <= s.len(),
        well_formed(s),
    ensures
        well_formed(s.take(i)),
        i < s.len() ==> phase(s.take(i)) != Phase::Ended,
    decreases s.len(),
{
    if i == s.len() {
        assert(s.take(i) =~= s);
    } else {
        assert(s.drop_last().take(i) =~= s.take(i));
        lemma_phase_prefix(s.drop_last(), i);
        if i == s.len() - 1 {
            assert(s.drop_last().take(i) =~= s.drop_last());
        }
    }
}

/// A stream that has not got past its interim heads holds no final head and no
/// body.
pub proof fn lemma_start<F>(s: Seq<FrameView<F>>)
    requires
        phase(s) == Phase::Start,
    ensures
        forall|i: int| 0 <= i < s.len() ==> #[trigger] s[i] is Interim,
        body_len(s) == 0,
    decreases s.len(),
{
    if s.len() > 0 {
        lemma_start(s.drop_last());
        assert forall|i: int| 0 <= i < s.len() implies #[trigger] s[i] is Interim by {
            if i < s.len() - 1 {
                assert(s[i] == s.drop_last()[i]);
            }
        }
    }
}

/// What framing a stream keeps, each prefix of it keeps.
pub proof fn lemma_framing_prefix<F>(s: Seq<FrameView<F>>, i: int)
    requires
        0 <= i <= s.len(),
        framing_kept(s),
    ensures
        framing_kept(s.take(i)),
        body_len(s.take(i)) <= body_len(s),
{
    let t = s.take(i);
    assert(s =~= t + s.skip(i));
    lemma_total_add(t, s.skip(i), payload());
    assert forall|k: int| 0 <= k < t.len() implies (#[trigger] t[k] matches FrameView::Head {
        content_length,
        bodiless,
        ..
    } ==> {
        &&& content_length matches Some(n) ==> body_len(t) <= n
        &&& bodiless ==> forall|j: int| 0 <= j < t.len() ==> !body_frame(#[trigger] t[j])
    }) by {
        assert(t[k] == s[k]);
        assert forall|j: int| 0 <= j < t.len() implies t[j] == s[j] by {}
    }
}

/// A stream has its final head at one place only.
pub proof fn the_final_head_occurs_once<F>(s: Seq<FrameView<F>>, i: int, j: int)
    requires
        well_formed(s),
        0 <= i < s.len(),
        0 <= j < s.len(),
        s[i] is Head,
        s[j] is Head,
    ensures
        i == j,
    decreases s.len(),
{
    if i < s.len() - 1 && j < s.len() - 1 {
        assert(s.drop_last()[i] == s[i]);
        assert(s.drop_last()[j] == s[j]);
        the_final_head_occurs_once(s.drop_last(), i, j);
    } else if i < s.len() - 1 || j < s.len() - 1 {
        lemma_start(s.drop_last());
        assert(s.drop_last()[if i < s.len() - 1 {
            i
        } else {
            j
        }] is Interim);
    }
}

} // verus!
