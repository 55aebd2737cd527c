use vstd::prelude::*;
use crate::source::MemSource;

verus! {

/// A rewindable reader for sources with native positioning: the peer of
/// the buffered reader with constant memory.
///
/// A checkpoint is the raw absolute offset itself: setting one queries the
/// source's position, rewinding repositions the source directly, and no
/// byte is ever retained locally.  Usable only when the source can seek;
/// for any script of reads, checkpoints and rewinds it delivers the same
/// byte sequence as the buffered reader.
#[derive(Debug, Clone, PartialEq, Eq)]
pub struct SeekInput<R> {
    inner: R,
}

impl<R> SeekInput<R> {
    /// The wrapped byte source.
    pub closed spec fn src(&self) -> R {
        self.inner
    }

    /// Create a new object over the given source.
    pub fn new(reader: R) -> (r: Self)
        ensures
            r.src() == reader,
    {
        SeekInput { inner: reader }
    }

    /// Consumes this object, returning the inner source.
    pub fn into_inner(self) -> (r: R)
        ensures
            r == self.src(),
    {
        self.inner
    }
}

impl SeekInput<MemSource> {
    /// The current position: the source's own cursor.
    pub fn position(&self) -> (r: usize)
        ensures
            r as int == self.src().cursor(),
    {
        self.inner.tell()
    }

    /// Mark a checkpoint: the current absolute offset, read off the
    /// source's native positioning.
    pub fn set_checkpoint(&mut self) -> (cp: usize)
        ensures
            *final(self) == *old(self),
            cp as int == old(self).src().cursor(),
            seek_mark_step(*old(self), *final(self), cp as int),
    {
        self.inner.tell()
    }

    /// Rewind: reposition the source to the checkpoint's offset.
    pub fn rewind(&mut self, checkpoint: usize)
        requires
            old(self).src().wf(),
            checkpoint <= old(self).src().data_seq().len(),
        ensures
            final(self).src().wf(),
            final(self).src().data_seq() == old(self).src().data_seq(),
            final(self).src().cursor() == checkpoint as int,
            seek_rewind_step(*old(self), *final(self), checkpoint as int),
    {
        self.inner.seek_to(checkpoint);
    }

    /// Read up to `n` bytes at the current position, straight from the
    /// source.
    pub fn read(&mut self, n: usize) -> (r: Vec<u8>)
        requires
            old(self).src().wf(),
        ensures
            final(self).src().wf(),
            final(self).src().data_seq() == old(self).src().data_seq(),
            r@.len() == vstd::math::min(
                n as int,
                old(self).src().data_seq().len() - old(self).src().cursor(),
            ),
            r@ == old(self).src().data_seq().subrange(
                old(self).src().cursor(),
                old(self).src().cursor() + r@.len(),
            ),
            final(self).src().cursor() == old(self).src().cursor() + r@.len(),
            seek_read_step(*old(self), *final(self), n as int, r@),
    {
        self.inner.read_up_to(n)
    }
}

/// What the seek-backed reader's `read` observes and changes.
pub open spec fn seek_read_step(
    pre: SeekInput<MemSource>,
    post: SeekInput<MemSource>,
    n: int,
    out: Seq<u8>,
) -> bool {
    &&& pre.src().wf()
    &&& post.src().wf()
    &&& post.src().data_seq() == pre.src().data_seq()
    &&& out.len() == vstd::math::min(n, pre.src().data_seq().len() - pre.src().cursor())
    &&& out == pre.src().data_seq().subrange(pre.src().cursor(), pre.src().cursor() + out.len())
    &&& post.src().cursor() == pre.src().cursor() + out.len()
}

/// What the seek-backed reader's `set_checkpoint` observes: the source is
/// left untouched and the checkpoint is its current offset.
pub open spec fn seek_mark_step(
    pre: SeekInput<MemSource>,
    post: SeekInput<MemSource>,
    cp: int,
) -> bool {
    &&& post == pre
    &&& cp == pre.src().cursor()
}

/// What the seek-backed reader's `rewind` observes and changes: the source
/// is repositioned to the checkpoint's offset.
pub open spec fn seek_rewind_step(
    pre: SeekInput<MemSource>,
    post: SeekInput<MemSource>,
    cp: int,
) -> bool {
    &&& 0 <= cp
    &&& cp <= pre.src().data_seq().len()
    &&& post.src().wf()
    &&& post.src().data_seq() == pre.src().data_seq()
    &&& post.src().cursor() == cp
}

} // verus!
