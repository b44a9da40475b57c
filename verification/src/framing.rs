//! Reframing of a raw byte stream into newline-delimited messages.
//!
//! A `FrameBuffer` accumulates the bytes a connection reader receives and
//! hands back complete frames: each frame is the bytes up to and including
//! one newline, and bytes after the last newline stay buffered for the
//! next read.

use vstd::prelude::*;

verus! {

/// The frame delimiter: an ASCII line feed.
pub const DELIM: u8 = 10;

/// A complete frame: nonempty, ends with the delimiter, and holds no
/// delimiter before its last byte.
pub open spec fn is_frame(f: Seq<u8>) -> bool {
    &&& f.len() > 0
    &&& f[f.len() - 1] == DELIM
    &&& forall|j: int| 0 <= j < f.len() - 1 ==> f[j] != DELIM
}

/// The frames of `fs` laid end to end.
pub open spec fn concat_frames(fs: Seq<Seq<u8>>) -> Seq<u8>
    decreases fs.len(),
{
    if fs.len() == 0 {
        Seq::empty()
    } else {
        concat_frames(fs.drop_last()) + fs.last()
    }
}

/// The views of a sequence of byte vectors.
pub open spec fn frames_view(fs: Seq<Vec<u8>>) -> Seq<Seq<u8>> {
    fs.map_values(|f: Vec<u8>| f@)
}

/// Per-connection accumulation buffer for partial frames.
pub struct FrameBuffer {
    buf: Vec<u8>,
}

impl View for FrameBuffer {
    type V = Seq<u8>;

    closed spec fn view(&self) -> Seq<u8> {
        self.buf@
    }
}

proof fn lemma_frames_view_push(fs: Seq<Vec<u8>>, f: Vec<u8>)
    ensures
        frames_view(fs.push(f)) == frames_view(fs).push(f@),
{
    assert(frames_view(fs.push(f)) =~= frames_view(fs).push(f@));
}

impl FrameBuffer {
    /// An empty buffer.
    pub fn new() -> (r: Self)
        ensures
            r@ == Seq::<u8>::empty(),
    {
        FrameBuffer { buf: Vec::new() }
    }

    /// How many bytes wait for their delimiter.
    pub fn pending(&self) -> (n: usize)
        ensures
            n == self@.len(),
    {
        self.buf.len()
    }

    /// Takes the first complete frame out of the buffer, if one is there.
    fn next_frame(&mut self) -> (r: Option<Vec<u8>>)
        ensures
            match r {
                Some(f) => is_frame(f@) && old(self)@ == f@ + final(self)@,
                None => final(self)@ == old(self)@ && (forall|j: int|
                    0 <= j < final(self)@.len() ==> final(self)@[j] != DELIM),
            },
    {
        let n = self.buf.len();
        let mut i: usize = 0;
        let mut found = false;
        while !found && i < n
            invariant
                0 <= i <= n,
                n == self.buf@.len(),
                *self == *old(self),
                forall|j: int| 0 <= j < i ==> self.buf@[j] != DELIM,
                found ==> i < n && self.buf@[i as int] == DELIM,
            decreases n - i, (if found { 0int } else { 1int }),
        {
            if self.buf[i] == DELIM {
                found = true;
            } else {
                i = i + 1;
            }
        }
        if found {
            let f = copy_range(&self.buf, 0, i + 1);
            let rest = copy_range(&self.buf, i + 1, n);
            self.buf = rest;
            proof {
                assert(old(self)@ =~= f@ + self.buf@);
            }
            Some(f)
        } else {
            None
        }
    }

    /// Appends a chunk read from the connection and returns every complete
    /// frame now available, in stream order.
    pub fn push_chunk(&mut self, chunk: &[u8]) -> (frames: Vec<Vec<u8>>)
        ensures
            concat_frames(frames_view(frames@)) + final(self)@ == old(self)@ + chunk@,
            forall|i: int|
                0 <= i < frames@.len() ==> is_frame(#[trigger] frames_view(frames@)[i]),
            forall|j: int| 0 <= j < final(self)@.len() ==> final(self)@[j] != DELIM,
    {
        self.buf.extend_from_slice(chunk);
        proof {
            assert(self.buf@ =~= old(self)@ + chunk@);
        }
        let mut frames: Vec<Vec<u8>> = Vec::new();
        let mut more = true;
        while more
            invariant
                concat_frames(frames_view(frames@)) + self.buf@ == old(self)@ + chunk@,
                forall|i: int|
                    0 <= i < frames@.len() ==> is_frame(#[trigger] frames_view(frames@)[i]),
                !more ==> forall|j: int| 0 <= j < self.buf@.len() ==> self.buf@[j] != DELIM,
            decreases self.buf@.len(), (if more { 1int } else { 0int }),
        {
            let ghost pre = self.buf@;
            let ghost fsv = frames_view(frames@);
            match self.next_frame() {
                Some(f) => {
                    proof {
                        lemma_frames_view_push(frames@, f);
                        assert(frames_view(frames@.push(f)).drop_last() =~= fsv);
                        assert(concat_frames(fsv.push(f@)) + self.buf@ =~= concat_frames(fsv)
                            + pre);
                    }
                    frames.push(f);
                },
                None => {
                    more = false;
                },
            }
        }
        frames
    }
}

/// Copy of `v[a..b]`.
fn copy_range(v: &Vec<u8>, a: usize, b: usize) -> (r: Vec<u8>)
    requires
        a <= b <= v@.len(),
    ensures
        r@ == v@.subrange(a as int, b as int),
{
    let mut r: Vec<u8> = Vec::new();
    let mut i: usize = a;
    while i < b
        invariant
            a <= i <= b <= v@.len(),
            r@ == v@.subrange(a as int, i as int),
        decreases b - i,
    {
        r.push(v[i]);
        proof {
            assert(v@.subrange(a as int, i as int).push(v@[i as int]) =~= v@.subrange(
                a as int,
                i as int + 1,
            ));
        }
        i = i + 1;
    }
    r
}

} // verus!
