use vstd::prelude::*;
use crate::ledger::lemma_key_of_positive_count;
use crate::reader::{mark_step, read_step, rewind_step, buffered_step, BufferInput};
use crate::seek::{seek_mark_step, seek_read_step, seek_rewind_step, SeekInput};
use crate::source::MemSource;

verus! {

/// One operation of a script against a rewindable reader, with the bytes
/// it delivered.
pub enum ReaderOp {
    Read(usize),
    Mark,
    Rewind(usize),
}

/// One step of a script against the buffered reader: the two states are
/// related exactly as the operation's contract relates them.
pub open spec fn script_step(
    pre: BufferInput<MemSource>,
    post: BufferInput<MemSource>,
    op: ReaderOp,
    out: Seq<u8>,
) -> bool {
    match op {
        ReaderOp::Read(n) => read_step(pre, post, n as int, out),
        ReaderOp::Mark => mark_step(pre, post, pre.pos()) && out == Seq::<u8>::empty(),
        ReaderOp::Rewind(cp) => rewind_step(pre, post, cp as int) && out == Seq::<u8>::empty(),
    }
}

/// A whole script run against the buffered reader: `states` are the
/// successive reader states, each consecutive pair related by the matching
/// operation's contract, and `outs` the bytes each operation delivered.
pub open spec fn script_run(
    states: Seq<BufferInput<MemSource>>,
    ops: Seq<ReaderOp>,
    outs: Seq<Seq<u8>>,
) -> bool {
    &&& states.len() == ops.len() + 1
    &&& outs.len() == ops.len()
    &&& forall|i: int|
        0 <= i < ops.len() ==> #[trigger] script_step(states[i], states[i + 1], ops[i], outs[i])
}

/// The source's fetch frontier never moves backwards over a script.
proof fn lemma_cursor_monotone(
    states: Seq<BufferInput<MemSource>>,
    ops: Seq<ReaderOp>,
    outs: Seq<Seq<u8>>,
    i: int,
    j: int,
)
    requires
        script_run(states, ops, outs),
        0 <= i <= j < states.len(),
    ensures
        states[i].src().cursor() <= states[j].src().cursor(),
    decreases j - i,
{
    if i < j {
        lemma_cursor_monotone(states, ops, outs, i, j - 1);
        let k = j - 1;
        assert(script_step(states[k], states[k + 1], ops[k], outs[k]));
        assert(states[k].src().cursor() <= states[k + 1].src().cursor());
    }
}

/// Single fetch: over any script of reads, checkpoints and rewinds, each
/// step fetches from the source exactly the offsets between the old fetch
/// frontier and the new one, and the frontier only moves forward — so the
/// offset ranges fetched by two distinct steps never overlap, and each
/// absolute byte offset is requested from the source at most once.
pub proof fn lemma_single_fetch(
    states: Seq<BufferInput<MemSource>>,
    ops: Seq<ReaderOp>,
    outs: Seq<Seq<u8>>,
    i: int,
    j: int,
)
    requires
        script_run(states, ops, outs),
        0 <= i < j < ops.len(),
    ensures
        states[i].src().cursor() <= states[i + 1].src().cursor(),
        states[i + 1].src().cursor() <= states[j].src().cursor(),
        states[j].src().cursor() <= states[j + 1].src().cursor(),
{
    lemma_cursor_monotone(states, ops, outs, i, i + 1);
    lemma_cursor_monotone(states, ops, outs, i + 1, j);
    lemma_cursor_monotone(states, ops, outs, j, j + 1);
}

/// Replay fidelity: if a checkpoint is set, `k` bytes are consumed, and
/// the reader is rewound to that checkpoint, a subsequent read of `k`
/// bytes returns exactly the bytes of the first consumption.
pub proof fn lemma_replay_fidelity(
    s0: BufferInput<MemSource>,
    s1: BufferInput<MemSource>,
    s2: BufferInput<MemSource>,
    s3: BufferInput<MemSource>,
    s4: BufferInput<MemSource>,
    cp: int,
    k: int,
    out1: Seq<u8>,
    out2: Seq<u8>,
)
    requires
        mark_step(s0, s1, cp),
        read_step(s1, s2, k, out1),
        rewind_step(s2, s3, cp),
        read_step(s3, s4, k, out2),
    ensures
        out2 == out1,
{
    assert(s3.pos() == cp == s1.pos());
    assert(s3.src().data_seq() == s1.src().data_seq());
}

/// Bounded retention: a read from the front of the retained range that
/// asks for at least the whole removable region leaves retained exactly
/// the span from the retention frontier to the end of the range — and
/// nothing at all when no checkpoint is active.
pub proof fn lemma_bounded_retention<R>(
    pre: BufferInput<R>,
    post: BufferInput<R>,
    n: int,
    out: Seq<u8>,
)
    requires
        buffered_step(pre, post, n, out),
        pre.pos() == pre.buf().off(),
        n >= pre.buf().first_cp() - pre.pos(),
    ensures
        post.buf().rec().len() == post.buf().end_pos() - post.buf().first_cp(),
        pre.buf().cps().len() == 0 ==> post.buf().rec().len() == 0,
{
}

/// Reference-count correctness: marking the same position twice takes two
/// rewinds to retire it.  After the first rewind the checkpoint keeps an
/// active reference and the retention frontier cannot pass it, so the
/// bytes from it on stay replayable; only the second rewind drops its
/// count to zero, after which one more rewind of it would violate the
/// rewind contract.
pub proof fn lemma_refcount_two_marks(
    s0: BufferInput<MemSource>,
    s1: BufferInput<MemSource>,
    s2: BufferInput<MemSource>,
    s3: BufferInput<MemSource>,
    s4: BufferInput<MemSource>,
    cp: int,
)
    requires
        s0.buf().count_of(cp) == 0,
        mark_step(s0, s1, cp),
        mark_step(s1, s2, cp),
        rewind_step(s2, s3, cp),
        rewind_step(s3, s4, cp),
    ensures
        s2.buf().count_of(cp) == 2,
        s3.buf().count_of(cp) == 1,
        s3.buf().first_cp() <= cp,
        s4.buf().count_of(cp) == 0,
{
    lemma_key_of_positive_count(s3.buf(), cp);
}

/// The buffered reader and the seek-backed peer in matching states: same
/// source data, and the peer's native position is the buffered reader's
/// position.
pub open spec fn peers(b: BufferInput<MemSource>, s: SeekInput<MemSource>) -> bool {
    &&& b.synced()
    &&& s.src().wf()
    &&& s.src().data_seq() == b.src().data_seq()
    &&& s.src().cursor() == b.pos()
}

/// Peer equivalence for a read: matching readers deliver identical bytes
/// and remain matching.
pub proof fn lemma_peer_read(
    b0: BufferInput<MemSource>,
    b1: BufferInput<MemSource>,
    s0: SeekInput<MemSource>,
    s1: SeekInput<MemSource>,
    n: int,
    out_b: Seq<u8>,
    out_s: Seq<u8>,
)
    requires
        peers(b0, s0),
        read_step(b0, b1, n, out_b),
        seek_read_step(s0, s1, n, out_s),
    ensures
        out_s == out_b,
        peers(b1, s1),
{
}

/// Peer equivalence for a checkpoint: matching readers hand out the same
/// checkpoint value and remain matching, provided the mark starts a clean
/// retention window (nothing stale is retained under an empty checkpoint
/// set away from the reader's position).
pub proof fn lemma_peer_mark(
    b0: BufferInput<MemSource>,
    b1: BufferInput<MemSource>,
    s0: SeekInput<MemSource>,
    s1: SeekInput<MemSource>,
    cp_b: int,
    cp_s: int,
)
    requires
        peers(b0, s0),
        b0.buf().cps().len() > 0 || b0.buf().rec().len() == 0 || b0.pos() == b0.buf().off(),
        mark_step(b0, b1, cp_b),
        seek_mark_step(s0, s1, cp_s),
    ensures
        cp_s == cp_b,
        peers(b1, s1),
{
    let d = b0.src().data_seq();
    if b0.buf().cps().len() == 0 {
        if b0.buf().rec().len() == 0 {
            assert(b1.buf().rec() =~= d.subrange(b1.buf().off(), b1.buf().end_pos()));
        } else {
            assert(b1.buf().off() == b0.buf().off());
        }
    }
    assert(b1.synced());
}

/// One step of the same script against the seek-backed peer.
pub open spec fn seek_script_step(
    pre: SeekInput<MemSource>,
    post: SeekInput<MemSource>,
    op: ReaderOp,
    out: Seq<u8>,
) -> bool {
    match op {
        ReaderOp::Read(n) => seek_read_step(pre, post, n as int, out),
        ReaderOp::Mark => seek_mark_step(pre, post, pre.src().cursor()) && out == Seq::<
            u8,
        >::empty(),
        ReaderOp::Rewind(cp) => seek_rewind_step(pre, post, cp as int) && out == Seq::<
            u8,
        >::empty(),
    }
}

/// A whole script run against the seek-backed peer.
pub open spec fn seek_script_run(
    states: Seq<SeekInput<MemSource>>,
    ops: Seq<ReaderOp>,
    outs: Seq<Seq<u8>>,
) -> bool {
    &&& states.len() == ops.len() + 1
    &&& outs.len() == ops.len()
    &&& forall|i: int|
        0 <= i < ops.len() ==> #[trigger] seek_script_step(
            states[i],
            states[i + 1],
            ops[i],
            outs[i],
        )
}

/// Step `i` of the script keeps the buffered reader orderly: a mark starts
/// a clean retention window, and a rewind leaves the reader serviceable.
pub open spec fn orderly_at(
    bs: Seq<BufferInput<MemSource>>,
    ops: Seq<ReaderOp>,
    i: int,
) -> bool {
    match ops[i] {
        ReaderOp::Read(_) => true,
        ReaderOp::Mark => bs[i].buf().cps().len() > 0 || bs[i].buf().rec().len() == 0 || bs[i].pos()
            == bs[i].buf().off(),
        ReaderOp::Rewind(_) => bs[i + 1].pos() < bs[i + 1].buf().first_cp() ==> bs[i + 1].pos()
            == bs[i + 1].buf().off(),
    }
}

/// The whole script keeps the buffered reader orderly.
pub open spec fn orderly(bs: Seq<BufferInput<MemSource>>, ops: Seq<ReaderOp>) -> bool {
    forall|i: int| 0 <= i < ops.len() ==> #[trigger] orderly_at(bs, ops, i)
}

/// Peer equivalence: over any orderly script of reads, checkpoints and
/// rewinds, a buffered reader and a seek-backed reader that start as peers
/// over the same source data deliver identical byte sequences at every
/// step and remain peers throughout.
pub proof fn lemma_peer_equivalence(
    bs: Seq<BufferInput<MemSource>>,
    ss: Seq<SeekInput<MemSource>>,
    ops: Seq<ReaderOp>,
    b_outs: Seq<Seq<u8>>,
    s_outs: Seq<Seq<u8>>,
    j: int,
)
    requires
        script_run(bs, ops, b_outs),
        seek_script_run(ss, ops, s_outs),
        peers(bs[0], ss[0]),
        orderly(bs, ops),
        0 <= j <= ops.len(),
    ensures
        peers(bs[j], ss[j]),
        forall|i: int| 0 <= i < j ==> s_outs[i] == b_outs[i],
    decreases j,
{
    if j > 0 {
        lemma_peer_equivalence(bs, ss, ops, b_outs, s_outs, j - 1);
        let k = j - 1;
        assert(script_step(bs[k], bs[k + 1], ops[k], b_outs[k]));
        assert(seek_script_step(ss[k], ss[k + 1], ops[k], s_outs[k]));
        assert(orderly_at(bs, ops, k));
        match ops[k] {
            ReaderOp::Read(n) => {
                lemma_peer_read(bs[k], bs[k + 1], ss[k], ss[k + 1], n as int, b_outs[k], s_outs[k]);
            },
            ReaderOp::Mark => {
                lemma_peer_mark(bs[k], bs[k + 1], ss[k], ss[k + 1], bs[k].pos(), ss[k].src().cursor());
            },
            ReaderOp::Rewind(cp) => {
                lemma_peer_rewind(bs[k], bs[k + 1], ss[k], ss[k + 1], cp as int);
            },
        }
    }
}

/// Peer equivalence for a rewind: matching readers rewound to the same
/// checkpoint remain matching, provided the rewind leaves the buffered
/// reader serviceable (its position is not strictly below the new
/// retention frontier unless it is the front of the retained range).
pub proof fn lemma_peer_rewind(
    b0: BufferInput<MemSource>,
    b1: BufferInput<MemSource>,
    s0: SeekInput<MemSource>,
    s1: SeekInput<MemSource>,
    cp: int,
)
    requires
        peers(b0, s0),
        rewind_step(b0, b1, cp),
        seek_rewind_step(s0, s1, cp),
        b1.pos() < b1.buf().first_cp() ==> b1.pos() == b1.buf().off(),
    ensures
        peers(b1, s1),
{
    lemma_key_of_positive_count(b0.buf(), cp);
    assert(b1.synced());
}

} // verus!
