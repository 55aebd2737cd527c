use vstd::prelude::*;
use crate::ledger::Buffer;
use crate::source::MemSource;

verus! {

/// A rewindable reader backed by a checkpoint ledger.
///
/// It wraps an arbitrary byte source and needs nothing of it but forward
/// reads: on each request it serves bytes out of the ledger where some
/// active checkpoint still retains them, and pulls fresh bytes from the
/// source otherwise, so that every absolute offset is fetched from the
/// source at most once.
#[derive(Debug, Clone, PartialEq, Eq)]
pub struct BufferInput<R> {
    position: usize,
    buffer: Buffer,
    inner: R,
}

impl<R> BufferInput<R> {
    /// The absolute position of the next byte to deliver to the caller.
    pub closed spec fn pos(&self) -> int {
        self.position as int
    }

    /// The checkpoint ledger.
    pub closed spec fn buf(&self) -> Buffer {
        self.buffer
    }

    /// The wrapped byte source.
    pub closed spec fn src(&self) -> R {
        self.inner
    }

    /// Well-formedness: the ledger is well formed, the reader never points
    /// before the retained range, a position still short of the retention
    /// frontier is exactly the front of the retained range, and while some
    /// checkpoint is active the reader stays inside the recorded range.
    pub open spec fn wf(&self) -> bool {
        &&& self.buf().wf()
        &&& self.buf().off() <= self.pos()
        &&& self.pos() < self.buf().first_cp() ==> self.pos() == self.buf().off()
        &&& self.buf().cps().len() > 0 ==> self.pos() <= self.buf().end_pos()
    }

    /// A fresh reader over `reader`, positioned at the start of the stream
    /// with nothing retained and no checkpoint active.
    pub fn new(reader: R) -> (r: Self)
        ensures
            r.wf(),
            r.pos() == 0,
            r.buf().off() == 0,
            r.buf().cps() == Seq::<(usize, u8)>::empty(),
            r.buf().rec() == Seq::<u8>::empty(),
            r.src() == reader,
    {
        BufferInput { position: 0, buffer: Buffer::default(), inner: reader }
    }

    /// Consumes this object, returning the inner source.
    pub fn into_inner(self) -> (r: R)
        ensures
            r == self.src(),
    {
        self.inner
    }

    /// The current position.
    pub fn position(&self) -> (r: usize)
        ensures
            r as int == self.pos(),
    {
        self.position
    }

    /// The active reference count of a checkpoint position.
    pub fn checkpoint_count(&self, cp: usize) -> (r: u8)
        requires
            self.wf(),
        ensures
            r as int == self.buf().count_of(cp as int),
    {
        self.buffer.count_at(cp)
    }

    /// How many bytes the ledger currently retains.
    pub fn buffered_len(&self) -> (r: usize)
        ensures
            r == self.buf().rec().len(),
    {
        self.buffer.retained_len()
    }

    /// Mark a checkpoint at the current position and return it.  When no
    /// checkpoint was active the retention window restarts here; the
    /// reference count at this position then gains one.
    pub fn set_checkpoint(&mut self) -> (cp: usize)
        requires
            old(self).wf(),
            old(self).buf().count_of(old(self).pos()) < 255,
            old(self).buf().cps().len() == 0 ==> old(self).pos() + old(self).buf().rec().len()
                <= usize::MAX,
        ensures
            final(self).wf(),
            cp as int == old(self).pos(),
            final(self).pos() == old(self).pos(),
            final(self).src() == old(self).src(),
            final(self).buf().rec() == old(self).buf().rec(),
            final(self).buf().off() == if old(self).buf().cps().len() == 0 {
                old(self).pos()
            } else {
                old(self).buf().off()
            },
            final(self).buf().count_of(old(self).pos()) == old(self).buf().count_of(
                old(self).pos(),
            ) + 1,
            forall|k: int|
                k != old(self).pos() ==> final(self).buf().count_of(k) == old(self).buf().count_of(
                    k,
                ),
            final(self).buf().cps().len() > 0,
            final(self).buf().first_cp() == if old(self).buf().cps().len() == 0 {
                old(self).pos()
            } else {
                vstd::math::min(old(self).buf().first_cp(), old(self).pos())
            },
            mark_step(*old(self), *final(self), cp as int),
    {
        self.buffer.set_checkpoint(self.position);
        self.position
    }

    /// Move the reader back (or forward) to a checkpoint and release one
    /// reference of it.  Passing a checkpoint with no active reference is a
    /// caller-contract violation, excluded by precondition; an unverified
    /// caller must treat it as fatal rather than recoverable.
    pub fn rewind(&mut self, checkpoint: usize)
        requires
            old(self).wf(),
            old(self).buf().count_of(checkpoint as int) >= 1,
        ensures
            final(self).pos() == checkpoint as int,
            final(self).src() == old(self).src(),
            final(self).buf().rec() == old(self).buf().rec(),
            final(self).buf().off() == old(self).buf().off(),
            final(self).buf().count_of(checkpoint as int) == old(self).buf().count_of(
                checkpoint as int,
            ) - 1,
            forall|k: int|
                k != checkpoint as int ==> final(self).buf().count_of(k)
                    == old(self).buf().count_of(k),
            final(self).buf().cps().len() == old(self).buf().cps().len() - (
            if old(self).buf().count_of(checkpoint as int) == 1 {
                1int
            } else {
                0int
            }),
            (final(self).pos() < final(self).buf().first_cp() ==> final(self).pos()
                == final(self).buf().off()) ==> final(self).wf(),
            final(self).buf().first_cp() >= old(self).buf().first_cp(),
            rewind_step(*old(self), *final(self), checkpoint as int),
    {
        proof {
            crate::ledger::lemma_key_of_positive_count(self.buf(), checkpoint as int);
        }
        self.buffer.rewind(checkpoint);
        self.position = checkpoint;
    }

    /// Serve as much of a request of `n` bytes as the ledger retains at the
    /// current position: destructively up to the retention frontier, then
    /// non-destructively up to the end of the retained range.  Returns
    /// fewer than `n` bytes exactly when the retained range runs out; the
    /// caller then reads fresh bytes from the source and hands them to
    /// `accept_fresh`.
    pub fn read_buffered(&mut self, n: usize) -> (r: Vec<u8>)
        requires
            old(self).wf(),
        ensures
            final(self).wf(),
            final(self).src() == old(self).src(),
            r@.len() == vstd::math::min(
                n as int,
                vstd::math::max(old(self).buf().end_pos() - old(self).pos(), 0),
            ),
            old(self).pos() <= old(self).buf().end_pos() ==> r@ == old(self).buf().rec().subrange(
                old(self).pos() - old(self).buf().off(),
                old(self).pos() - old(self).buf().off() + r@.len(),
            ),
            final(self).pos() == old(self).pos() + r@.len(),
            final(self).buf().cps() == old(self).buf().cps(),
            final(self).buf().off() == old(self).buf().off() + drop_amount(
                *old(self),
                n as int,
            ),
            final(self).buf().rec() == old(self).buf().rec().subrange(
                drop_amount(*old(self), n as int),
                old(self).buf().rec().len() as int,
            ),
            final(self).buf().end_pos() == old(self).buf().end_pos(),
            final(self).buf().first_cp() == old(self).buf().first_cp(),
            r@.len() < n ==> final(self).pos() >= final(self).buf().end_pos(),
            buffered_step(*old(self), *final(self), n as int, r@),
    {
        let ghost entry = *self;
        let mut out: Vec<u8> = Vec::new();
        let first = self.buffer.first_checkpoint();
        if self.position < first {
            let popped = self.buffer.pop(self.position, n);
            self.position = self.position + popped.0;
            out = popped.1;
        }
        let remaining = n - out.len();
        let end = self.buffer.end();
        if self.position < end && remaining != 0 {
            let mut borrowed = self.buffer.pop_ref(self.position, remaining);
            self.position = self.position + borrowed.0;
            out.append(&mut borrowed.1);
            proof {
                assert(out@ =~= entry.buf().rec().subrange(
                    entry.pos() - entry.buf().off(),
                    entry.pos() - entry.buf().off() + out@.len(),
                ));
            }
        }
        proof {
            if entry.pos() <= entry.buf().end_pos() {
                assert(out@ =~= entry.buf().rec().subrange(
                    entry.pos() - entry.buf().off(),
                    entry.pos() - entry.buf().off() + out@.len(),
                ));
            }
            assert(entry.wf());
            assert(self.wf());
            assert(self.src() == entry.src());
            assert(out@.len() == vstd::math::min(
                n as int,
                vstd::math::max(entry.buf().end_pos() - entry.pos(), 0),
            ));
            assert(self.pos() == entry.pos() + out@.len());
            assert(self.buf().cps() == entry.buf().cps());
            assert(self.buf().off() == entry.buf().off() + drop_amount(entry, n as int));
            assert(self.buf().rec() == entry.buf().rec().subrange(
                drop_amount(entry, n as int),
                entry.buf().rec().len() as int,
            ));
            assert(self.buf().end_pos() == entry.buf().end_pos());
            assert(self.buf().first_cp() == entry.buf().first_cp());
            assert(buffered_step(entry, *self, n as int, out@));
        }
        out
    }

    /// Note `bytes` freshly read from the source for the positions starting
    /// at the current one: the position advances past them, and while some
    /// checkpoint is active they are retained for replay.
    pub fn accept_fresh(&mut self, bytes: &[u8])
        requires
            old(self).wf(),
            old(self).pos() >= old(self).buf().end_pos(),
            old(self).pos() + bytes@.len() <= usize::MAX,
        ensures
            final(self).wf(),
            final(self).src() == old(self).src(),
            final(self).pos() == old(self).pos() + bytes@.len(),
            final(self).buf().cps() == old(self).buf().cps(),
            final(self).buf().off() == old(self).buf().off(),
            final(self).buf().rec() == if old(self).buf().cps().len() > 0 {
                old(self).buf().rec() + bytes@
            } else {
                old(self).buf().rec()
            },
    {
        self.position = self.position + bytes.len();
        if self.buffer.is_recording() {
            self.buffer.push(bytes);
        }
    }
}

impl BufferInput<MemSource> {
    /// The coupling between reader and in-memory source: the retained
    /// bytes mirror the source's data for the retained range, and the
    /// source's cursor stands exactly at the frontier of what has ever
    /// been fetched, so no byte is requested twice.
    pub open spec fn synced(&self) -> bool {
        &&& self.wf()
        &&& self.src().wf()
        &&& self.buf().end_pos() <= self.src().data_seq().len()
        &&& self.buf().rec() == self.src().data_seq().subrange(
            self.buf().off(),
            self.buf().end_pos(),
        )
        &&& self.src().cursor() == vstd::math::max(self.buf().end_pos(), self.pos())
    }

    /// A complete read: serve retained bytes first, then pull what is
    /// still missing fresh from the source, retaining it whenever some
    /// checkpoint is active.  Returns exactly the source's bytes at the
    /// current position, as many as requested or as the source still
    /// holds.
    pub fn read(&mut self, n: usize) -> (r: Vec<u8>)
        requires
            old(self).synced(),
        ensures
            final(self).synced(),
            final(self).src().data_seq() == old(self).src().data_seq(),
            r@.len() == vstd::math::min(
                n as int,
                old(self).src().data_seq().len() - old(self).pos(),
            ),
            r@ == old(self).src().data_seq().subrange(old(self).pos(), old(self).pos() + r@.len()),
            final(self).pos() == old(self).pos() + r@.len(),
            final(self).buf().cps() == old(self).buf().cps(),
            final(self).buf().first_cp() == old(self).buf().first_cp(),
            read_step(*old(self), *final(self), n as int, r@),
    {
        let ghost entry = *self;
        let ghost d = entry.src().data_seq();
        let mut out = self.read_buffered(n);
        proof {
            let off = entry.buf().off();
            let endp = entry.buf().end_pos();
            assert(entry.buf().rec() == d.subrange(off, endp));
            assert(0 <= off && off <= endp && endp <= d.len());
            if entry.pos() <= endp {
                let s = entry.pos() - off;
                assert(0 <= s && s + out@.len() <= endp - off);
                assert(out@ == entry.buf().rec().subrange(s, s + out@.len()));
                assert forall|i: int| 0 <= i < out@.len() implies out@[i] == d[entry.pos() + i] by {
                    assert(out@[i] == entry.buf().rec()[s + i]);
                    assert(entry.buf().rec()[s + i] == d[off + (s + i)]);
                }
                assert(out@ =~= d.subrange(entry.pos(), entry.pos() + out@.len()));
            }
            let dr = drop_amount(entry, n as int);
            assert(0 <= dr && dr <= entry.buf().rec().len());
            assert(self.buf().rec() == entry.buf().rec().subrange(dr, entry.buf().rec().len() as int));
            assert forall|i: int| 0 <= i < self.buf().rec().len() implies self.buf().rec()[i] == d[
                self.buf().off() + i
            ] by {
                assert(self.buf().rec()[i] == entry.buf().rec()[dr + i]);
                assert(entry.buf().rec()[dr + i] == d[off + (dr + i)]);
            }
            assert(self.buf().rec() =~= d.subrange(self.buf().off(), self.buf().end_pos()));
        }
        let remaining = n - out.len();
        if remaining != 0 {
            let ghost mid = *self;
            let mut fresh = self.inner.read_up_to(remaining);
            self.accept_fresh(fresh.as_slice());
            proof {
                if mid.buf().cps().len() > 0 {
                    assert forall|i: int| 0 <= i < self.buf().rec().len() implies self.buf().rec()[
                        i
                    ] == d[self.buf().off() + i] by {
                        if i < mid.buf().rec().len() {
                            assert(self.buf().rec()[i] == mid.buf().rec()[i]);
                        } else {
                            assert(self.buf().rec()[i] == fresh@[i - mid.buf().rec().len()]);
                        }
                    }
                }
                assert(self.buf().rec() =~= d.subrange(self.buf().off(), self.buf().end_pos()));
            }
            out.append(&mut fresh);
        }
        proof {
            assert(out@ =~= d.subrange(entry.pos(), entry.pos() + out@.len()));
        }
        out
    }
}

/// How far `read_buffered` advances the front of the retained range when
/// asked for `n` bytes: the removable region it crosses, bounded by the
/// retention frontier.
pub open spec fn drop_amount<R>(s: BufferInput<R>, n: int) -> int {
    if s.pos() < s.buf().first_cp() {
        vstd::math::min(n, s.buf().first_cp() - s.pos())
    } else {
        0
    }
}

/// What `read_buffered` observes and changes: the served bytes come out
/// of the retained range at the position, the removable region crossed is
/// dropped for good, and the checkpoints and the end of the retained
/// range stay put.
pub open spec fn buffered_step<R>(
    pre: BufferInput<R>,
    post: BufferInput<R>,
    n: int,
    out: Seq<u8>,
) -> bool {
    &&& pre.wf()
    &&& post.wf()
    &&& post.src() == pre.src()
    &&& out.len() == vstd::math::min(n, vstd::math::max(pre.buf().end_pos() - pre.pos(), 0))
    &&& post.pos() == pre.pos() + out.len()
    &&& post.buf().cps() == pre.buf().cps()
    &&& post.buf().off() == pre.buf().off() + drop_amount(pre, n)
    &&& post.buf().rec() == pre.buf().rec().subrange(
        drop_amount(pre, n),
        pre.buf().rec().len() as int,
    )
    &&& post.buf().end_pos() == pre.buf().end_pos()
    &&& post.buf().first_cp() == pre.buf().first_cp()
}

/// What `set_checkpoint` observes and changes: the returned checkpoint is
/// the current position, whose reference count gains one while everything
/// retained stays put; with no prior checkpoint the retention window
/// restarts here.
pub open spec fn mark_step<R>(pre: BufferInput<R>, post: BufferInput<R>, cp: int) -> bool {
    &&& pre.wf()
    &&& post.wf()
    &&& cp == pre.pos()
    &&& post.pos() == pre.pos()
    &&& post.src() == pre.src()
    &&& post.buf().rec() == pre.buf().rec()
    &&& post.buf().off() == if pre.buf().cps().len() == 0 {
        pre.pos()
    } else {
        pre.buf().off()
    }
    &&& post.buf().count_of(cp) == pre.buf().count_of(cp) + 1
    &&& forall|k: int| k != cp ==> post.buf().count_of(k) == pre.buf().count_of(k)
    &&& post.buf().cps().len() > 0
    &&& post.buf().first_cp() == if pre.buf().cps().len() == 0 {
        cp
    } else {
        vstd::math::min(pre.buf().first_cp(), cp)
    }
}

/// What `rewind` observes and changes: the position returns to the
/// checkpoint, whose reference count loses one; the retained range stays
/// put.
pub open spec fn rewind_step<R>(pre: BufferInput<R>, post: BufferInput<R>, cp: int) -> bool {
    &&& pre.wf()
    &&& pre.buf().count_of(cp) >= 1
    &&& post.buf().wf()
    &&& post.pos() == cp
    &&& post.src() == pre.src()
    &&& post.buf().rec() == pre.buf().rec()
    &&& post.buf().off() == pre.buf().off()
    &&& post.buf().count_of(cp) == pre.buf().count_of(cp) - 1
    &&& forall|k: int| k != cp ==> post.buf().count_of(k) == pre.buf().count_of(k)
    &&& post.buf().first_cp() >= pre.buf().first_cp()
}

/// What a complete `read` of `n` bytes against the in-memory source
/// observes and changes: it returns exactly the source's bytes at the old
/// position, as many as requested or as the source still holds, moves the
/// position past them, touches no checkpoint, and never moves the fetch
/// frontier backwards.
pub open spec fn read_step(
    pre: BufferInput<MemSource>,
    post: BufferInput<MemSource>,
    n: int,
    out: Seq<u8>,
) -> bool {
    &&& pre.synced()
    &&& post.synced()
    &&& post.src().data_seq() == pre.src().data_seq()
    &&& out.len() == vstd::math::min(n, pre.src().data_seq().len() - pre.pos())
    &&& out == pre.src().data_seq().subrange(pre.pos(), pre.pos() + out.len())
    &&& post.pos() == pre.pos() + out.len()
    &&& post.buf().cps() == pre.buf().cps()
    &&& post.buf().first_cp() == pre.buf().first_cp()
    &&& pre.src().cursor() <= post.src().cursor()
}

} // verus!
