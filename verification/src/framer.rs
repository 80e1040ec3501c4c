use vstd::prelude::*;

use crate::buffer::Buffer;

verus! {

/// A unit of application data cut out of a byte stream.
pub enum Frame {
    Text(String),
}

/// Finds where the first complete frame held by a buffer ends.
pub trait Framer: Sized {
    /// Where the first frame of `bytes` ends, or `None` while `bytes` holds
    /// no complete frame.
    spec fn frame_end(&self, bytes: Seq<u8>) -> Option<usize>;

    /// Looks for a complete frame at the front of `buffer`, and answers the
    /// index where it ends. Neither the framer nor the buffer changes.
    fn next_frame<B: Buffer>(&mut self, buffer: &mut B) -> (end: Option<usize>)
        ensures
            end == old(self).frame_end(old(buffer).content()),
            *final(self) == *old(self),
            *final(buffer) == *old(buffer),
    ;
}

/// The byte that ends a line.
pub const NEWLINE: u8 = 10;

/// `i` is the position of the first newline in `bytes`.
pub open spec fn is_first_newline(bytes: Seq<u8>, i: int) -> bool {
    &&& 0 <= i < bytes.len()
    &&& bytes[i] == NEWLINE
    &&& forall|j: int| 0 <= j < i ==> bytes[j] != NEWLINE
}

/// `bytes` holds a newline somewhere.
pub open spec fn has_newline(bytes: Seq<u8>) -> bool {
    exists|i: int| 0 <= i < bytes.len() && bytes[i] == NEWLINE
}

/// Cuts a stream into lines: a frame runs up to the first newline, which it
/// includes unless `strip_cr` is set.
#[derive(Debug)]
pub struct LineFramer {
    pub strip_cr: bool,
}

impl Default for LineFramer {
    fn default() -> (framer: Self)
        ensures
            !framer.strip_cr,
    {
        LineFramer { strip_cr: false }
    }
}

/// The only position that is the first newline.
proof fn lemma_first_newline_unique(bytes: Seq<u8>, i: int, k: int)
    requires
        is_first_newline(bytes, i),
        is_first_newline(bytes, k),
    ensures
        i == k,
{
    if i < k {
        assert(bytes[i] != NEWLINE);
    } else if k < i {
        assert(bytes[k] != NEWLINE);
    }
}

/// A stream that holds a newline has a first one.
pub proof fn lemma_first_newline_exists(bytes: Seq<u8>)
    requires
        has_newline(bytes),
    ensures
        exists|i: int| is_first_newline(bytes, i),
    decreases bytes.len(),
{
    if bytes[0] == NEWLINE {
        assert(is_first_newline(bytes, 0));
    } else {
        let tail = bytes.drop_first();
        let k = choose|k: int| 0 <= k < bytes.len() && bytes[k] == NEWLINE;
        assert(tail[k - 1] == NEWLINE);
        lemma_first_newline_exists(tail);
        let i = choose|i: int| is_first_newline(tail, i);
        assert forall|j: int| 0 <= j < i + 1 implies bytes[j] != NEWLINE by {
            if j > 0 {
                assert(bytes[j] == tail[j - 1]);
            }
        }
        assert(is_first_newline(bytes, i + 1));
    }
}

impl LineFramer {
    /// Where the line that starts `bytes` ends: just past its newline, or on
    /// the newline itself when `strip_cr` is set.
    pub open spec fn line_end(&self, bytes: Seq<u8>) -> Option<usize> {
        if has_newline(bytes) {
            let i = choose|i: int| is_first_newline(bytes, i);
            Some(
                if self.strip_cr {
                    i as usize
                } else {
                    (i + 1) as usize
                },
            )
        } else {
            None
        }
    }
}

/// A line framer's frame ends on the first newline when `strip_cr` is set,
/// and just past it otherwise; without a newline there is no frame. The two
/// settings differ by exactly the newline.
pub proof fn law_line_end_at_first_newline(bytes: Seq<u8>)
    requires
        bytes.len() <= usize::MAX,
    ensures
        has_newline(bytes) ==> ((LineFramer { strip_cr: true }).frame_end(bytes) matches Some(e)
            && is_first_newline(bytes, e as int)),
        has_newline(bytes) ==> ((LineFramer { strip_cr: false }).frame_end(bytes) matches Some(e)
            && e >= 1 && is_first_newline(bytes, e - 1)),
        has_newline(bytes) ==> (LineFramer { strip_cr: false }).frame_end(bytes)->0 == (
        LineFramer { strip_cr: true }).frame_end(bytes)->0 + 1,
        !has_newline(bytes) ==> (LineFramer { strip_cr: true }).frame_end(bytes) is None
            && (LineFramer { strip_cr: false }).frame_end(bytes) is None,
{
    if has_newline(bytes) {
        lemma_first_newline_exists(bytes);
        let i = choose|i: int| is_first_newline(bytes, i);
        assert(is_first_newline(bytes, i));
        assert((i as usize) as int == i);
        assert(((i + 1) as usize) as int == i + 1);
    }
}

impl Framer for LineFramer {
    open spec fn frame_end(&self, bytes: Seq<u8>) -> Option<usize> {
        self.line_end(bytes)
    }

    fn next_frame<B: Buffer>(&mut self, buffer: &mut B) -> (end: Option<usize>) {
        if buffer.is_empty() {
            return None;
        }
        let slice = buffer.view();
        let ghost bytes = slice@;
        let mut i: usize = 0;
        while i < slice.len()
            invariant
                bytes == slice@,
                bytes == old(buffer).content(),
                *self == *old(self),
                *buffer == *old(buffer),
                i <= slice@.len(),
                forall|j: int| 0 <= j < i ==> slice@[j] != NEWLINE,
            decreases slice@.len() - i,
        {
            if slice[i] == NEWLINE {
                proof {
                    assert(is_first_newline(bytes, i as int));
                    let k = choose|k: int| is_first_newline(bytes, k);
                    lemma_first_newline_unique(bytes, i as int, k);
                    assert(has_newline(bytes));
                }
                let to = if self.strip_cr {
                    i
                } else {
                    i + 1
                };
                assert(self.line_end(bytes) == Some(to));
                return Some(to);
            }
            i = i + 1;
        }
        None
    }
}

} // verus!

verus! {

/// How long the first line of `bytes` is, its newline included.
pub open spec fn first_line_len(bytes: Seq<u8>) -> int {
    (choose|i: int| is_first_newline(bytes, i)) + 1
}

/// What is left of `bytes` once every complete line has been taken out: the
/// bytes after the last newline.
pub open spec fn drained(bytes: Seq<u8>) -> Seq<u8>
    decreases bytes.len(),
{
    if has_newline(bytes) {
        proof {
            lemma_first_newline_exists(bytes);
        }
        drained(bytes.skip(first_line_len(bytes)))
    } else {
        bytes
    }
}

/// The first line of a stream that holds a newline is not empty and fits in
/// the stream.
pub proof fn lemma_first_line_len_bounds(bytes: Seq<u8>)
    requires
        has_newline(bytes),
    ensures
        1 <= first_line_len(bytes) <= bytes.len(),
        LineFramer::spec_default().line_end(bytes) == Some(first_line_len(bytes) as usize),
{
    lemma_first_newline_exists(bytes);
}

/// Once every complete line is taken out, no newline is left.
pub proof fn law_drained_holds_no_line(bytes: Seq<u8>)
    ensures
        !has_newline(drained(bytes)),
        drained(bytes).len() <= bytes.len(),
    decreases bytes.len(),
{
    if has_newline(bytes) {
        lemma_first_line_len_bounds(bytes);
        law_drained_holds_no_line(bytes.skip(first_line_len(bytes)));
    }
}

impl LineFramer {
    /// The framer that `default` builds.
    pub open spec fn spec_default() -> Self {
        LineFramer { strip_cr: false }
    }
}

/// A refused `push`: the bytes would not fit.
#[derive(Debug)]
pub struct FrameBufferFull;

/// A bounded buffer that collects a byte stream and hands it out line by
/// line, each line with its newline.
pub struct FrameBuffer {
    bytes: Vec<u8>,
    capacity: usize,
}

impl FrameBuffer {
    #[verifier::type_invariant]
    spec fn within_capacity(self) -> bool {
        self.bytes.content().len() <= self.capacity
    }

    /// The bytes held that no frame has taken yet.
    pub closed spec fn pending(&self) -> Seq<u8> {
        self.bytes.content()
    }

    /// The most bytes the buffer holds.
    pub closed spec fn limit(&self) -> usize {
        self.capacity
    }

    /// An empty buffer that holds at most `capacity` bytes.
    pub fn new(capacity: usize) -> (b: Self)
        ensures
            b.pending() == Seq::<u8>::empty(),
            b.limit() == capacity,
    {
        FrameBuffer { bytes: Vec::new(), capacity }
    }

    /// Appends `data` when it fits, and refuses it, changing nothing, when
    /// it does not.
    pub fn push(&mut self, data: &[u8]) -> (r: Result<(), FrameBufferFull>)
        ensures
            final(self).limit() == old(self).limit(),
            r is Ok <==> old(self).pending().len() + data@.len() <= old(self).limit(),
            r is Ok ==> final(self).pending() == old(self).pending() + data@,
            r is Err ==> final(self).pending() == old(self).pending(),
    {
        proof {
            use_type_invariant(&*self);
        }
        if data.len() > self.capacity - self.bytes.len() {
            return Err(FrameBufferFull);
        }
        let mut bytes = Vec::new();
        std::mem::swap(&mut bytes, &mut self.bytes);
        Buffer::append(&mut bytes, data);
        self.bytes = bytes;
        Ok(())
    }

    /// Takes the first complete line out of the buffer, newline included;
    /// `None`, changing nothing, while no newline is held.
    pub fn next_frame(&mut self) -> (frame: Option<Vec<u8>>)
        ensures
            final(self).limit() == old(self).limit(),
            match frame {
                Some(f) => {
                    &&& has_newline(old(self).pending())
                    &&& f.content() == old(self).pending().take(first_line_len(old(self).pending()))
                    &&& final(self).pending() == old(self).pending().skip(
                        first_line_len(old(self).pending()),
                    )
                },
                None => {
                    &&& !has_newline(old(self).pending())
                    &&& final(self).pending() == old(self).pending()
                },
            },
    {
        proof {
            use_type_invariant(&*self);
        }
        let ghost before = self.bytes.content();
        let mut framer = LineFramer::default();
        let mut bytes = Vec::new();
        std::mem::swap(&mut bytes, &mut self.bytes);
        let end = framer.next_frame(&mut bytes);
        match end {
            Some(to) => {
                proof {
                    lemma_first_line_len_bounds(before);
                }
                let frame = vstd::slice::slice_to_vec(
                    vstd::slice::slice_subrange(bytes.as_slice(), 0, to),
                );
                Buffer::consume(&mut bytes, to);
                self.bytes = bytes;
                Some(frame)
            },
            None => {
                self.bytes = bytes;
                None
            },
        }
    }
}

} // verus!
