use vstd::prelude::*;
use std::collections::VecDeque;

verus! {

/// The sum of the reference counts that the ordered checkpoint entries `s`
/// hold at absolute position `at`.  With unique keys this is the count of
/// the one entry keyed `at`, or zero when no entry carries that key.
pub open spec fn seq_count(s: Seq<(usize, u8)>, at: int) -> int
    decreases s.len(),
{
    if s.len() == 0 {
        0
    } else {
        (if s[0].0 as int == at {
            s[0].1 as int
        } else {
            0
        }) + seq_count(s.drop_first(), at)
    }
}

/// Entries are strictly ordered by their position key.
pub open spec fn cps_sorted(s: Seq<(usize, u8)>) -> bool {
    forall|i: int, j: int|
        0 <= i < j < s.len() ==> (#[trigger] s[i]).0 < (#[trigger] s[j]).0
}

proof fn lemma_count_insert(s: Seq<(usize, u8)>, i: int, e: (usize, u8), at: int)
    requires
        0 <= i <= s.len(),
    ensures
        seq_count(s.insert(i, e), at) == seq_count(s, at) + (if e.0 as int == at {
            e.1 as int
        } else {
            0
        }),
    decreases s.len(),
{
    if i == 0 {
        assert(s.insert(0, e).drop_first() =~= s);
    } else {
        assert(s.insert(i, e)[0] == s[0]);
        assert(s.insert(i, e).drop_first() =~= s.drop_first().insert(i - 1, e));
        lemma_count_insert(s.drop_first(), i - 1, e, at);
    }
}

proof fn lemma_count_remove(s: Seq<(usize, u8)>, i: int, at: int)
    requires
        0 <= i < s.len(),
    ensures
        seq_count(s.remove(i), at) == seq_count(s, at) - (if s[i].0 as int == at {
            s[i].1 as int
        } else {
            0
        }),
    decreases s.len(),
{
    if i == 0 {
        assert(s.remove(0) =~= s.drop_first());
    } else {
        assert(s.remove(i)[0] == s[0]);
        assert(s.remove(i).drop_first() =~= s.drop_first().remove(i - 1));
        lemma_count_remove(s.drop_first(), i - 1, at);
    }
}

proof fn lemma_count_update(s: Seq<(usize, u8)>, i: int, e: (usize, u8), at: int)
    requires
        0 <= i < s.len(),
    ensures
        seq_count(s.update(i, e), at) == seq_count(s, at) - (if s[i].0 as int == at {
            s[i].1 as int
        } else {
            0
        }) + (if e.0 as int == at {
            e.1 as int
        } else {
            0
        }),
{
    assert(s.update(i, e) =~= s.remove(i).insert(i, e));
    lemma_count_remove(s, i, at);
    lemma_count_insert(s.remove(i), i, e, at);
}

proof fn lemma_count_absent(s: Seq<(usize, u8)>, at: int)
    requires
        forall|j: int| 0 <= j < s.len() ==> (#[trigger] s[j]).0 as int != at,
    ensures
        seq_count(s, at) == 0,
    decreases s.len(),
{
    if s.len() > 0 {
        assert forall|j: int| 0 <= j < s.drop_first().len() implies (#[trigger] s.drop_first()[j]).0
            as int != at by {
            assert(s.drop_first()[j] == s[j + 1]);
        }
        lemma_count_absent(s.drop_first(), at);
    }
}

/// In a strictly ordered entry sequence, the count at the key of entry `i`
/// is exactly that entry's count.
proof fn lemma_count_at(s: Seq<(usize, u8)>, i: int)
    requires
        0 <= i < s.len(),
        cps_sorted(s),
    ensures
        seq_count(s, s[i].0 as int) == s[i].1 as int,
{
    lemma_count_remove(s, i, s[i].0 as int);
    assert forall|j: int| 0 <= j < s.remove(i).len() implies (#[trigger] s.remove(i)[j]).0 as int
        != s[i].0 as int by {
        if j < i {
            assert(s.remove(i)[j] == s[j]);
        } else {
            assert(s.remove(i)[j] == s[j + 1]);
        }
    }
    lemma_count_absent(s.remove(i), s[i].0 as int);
}

proof fn lemma_count_pos(s: Seq<(usize, u8)>, at: int)
    requires
        seq_count(s, at) != 0,
    ensures
        exists|j: int| 0 <= j < s.len() && (#[trigger] s[j]).0 as int == at,
    decreases s.len(),
{
    if s.len() > 0 && s[0].0 as int != at {
        lemma_count_pos(s.drop_first(), at);
        let j = choose|j: int|
            0 <= j < s.drop_first().len() && (#[trigger] s.drop_first()[j]).0 as int == at;
        assert(s[j + 1] == s.drop_first()[j]);
    }
}

/// In a well-formed ledger, any position with an active reference lies
/// within the retained range and at or past the retention frontier.
pub proof fn lemma_key_of_positive_count(b: Buffer, at: int)
    requires
        b.wf(),
        b.count_of(at) > 0,
    ensures
        b.off() <= at,
        at <= b.end_pos(),
        b.first_cp() <= at,
{
    lemma_count_pos(b.cps(), at);
    let j = choose|j: int| 0 <= j < b.cps().len() && (#[trigger] b.cps()[j]).0 as int == at;
    if j > 0 {
        assert(b.cps()[0].0 < b.cps()[j].0);
    }
    if j < b.cps().len() - 1 {
        assert(b.cps()[j].0 < b.cps()[b.cps().len() - 1].0);
    }
}

/// The checkpoint ledger: the retained byte range of the stream together
/// with the reference-counted checkpoint offsets that keep it reachable.
///
/// `offset` is the absolute stream position of the first retained byte,
/// `record` holds exactly the bytes for `[offset, offset + record.len())`,
/// and `checkpoints` maps absolute positions to active reference counts,
/// kept ordered by position so that the earliest reachable point — the
/// retention frontier — is its first entry.
#[derive(Debug, Clone, PartialEq, Eq)]
pub struct Buffer {
    offset: usize,
    checkpoints: Vec<(usize, u8)>,
    record: VecDeque<u8>,
}

impl Buffer {
    /// The absolute position of the first retained byte.
    pub closed spec fn off(&self) -> int {
        self.offset as int
    }

    /// The checkpoint entries, ordered by position.
    pub closed spec fn cps(&self) -> Seq<(usize, u8)> {
        self.checkpoints@
    }

    /// The retained bytes, covering `[off(), end_pos())`.
    pub closed spec fn rec(&self) -> Seq<u8> {
        self.record@
    }

    /// One past the last retained absolute position.
    pub open spec fn end_pos(&self) -> int {
        self.off() + self.rec().len()
    }

    /// The active reference count at absolute position `at`.
    pub open spec fn count_of(&self, at: int) -> int {
        seq_count(self.cps(), at)
    }

    /// The retention frontier: the earliest checkpointed position, or the
    /// end of the retained range when no checkpoint is active.
    pub open spec fn first_cp(&self) -> int {
        if self.cps().len() == 0 {
            self.end_pos()
        } else {
            self.cps()[0].0 as int
        }
    }

    /// Well-formedness: entries strictly ordered with positive counts, every
    /// checkpointed position inside the retained range, and the retained
    /// range within machine bounds.
    pub open spec fn wf(&self) -> bool {
        &&& 0 <= self.off()
        &&& cps_sorted(self.cps())
        &&& forall|i: int| 0 <= i < self.cps().len() ==> (#[trigger] self.cps()[i]).1 >= 1
        &&& self.cps().len() > 0 ==> self.off() <= self.cps()[0].0
        &&& self.cps().len() > 0 ==> self.cps()[self.cps().len() - 1].0 <= self.end_pos()
        &&& self.end_pos() <= usize::MAX
    }

    /// Append freshly read bytes at the end of the retained range.
    pub fn push(&mut self, buf: &[u8])
        requires
            old(self).wf(),
            old(self).end_pos() + buf@.len() <= usize::MAX,
        ensures
            final(self).wf(),
            final(self).off() == old(self).off(),
            final(self).cps() == old(self).cps(),
            final(self).rec() == old(self).rec() + buf@,
    {
        let mut i: usize = 0;
        while i < buf.len()
            invariant
                i <= buf@.len(),
                old(self).end_pos() + buf@.len() <= usize::MAX,
                self.offset == old(self).offset,
                self.checkpoints == old(self).checkpoints,
                self.record@ == old(self).rec() + buf@.subrange(0, i as int),
            decreases buf@.len() - i,
        {
            self.record.push_back(buf[i]);
            assert(buf@.subrange(0, i as int).push(buf@[i as int]) =~= buf@.subrange(
                0,
                i as int + 1,
            ));
            i = i + 1;
        }
        assert(buf@.subrange(0, buf@.len() as int) =~= buf@);
    }

    /// True iff at least one checkpoint is active, so that freshly read
    /// bytes must be retained.
    pub fn is_recording(&self) -> (r: bool)
        ensures
            r == (self.cps().len() > 0),
    {
        self.checkpoints.len() != 0
    }

    /// The retention frontier as a concrete position.
    pub fn first_checkpoint(&self) -> (r: usize)
        requires
            self.wf(),
        ensures
            r as int == self.first_cp(),
    {
        if self.checkpoints.len() == 0 {
            self.end()
        } else {
            self.checkpoints[0].0
        }
    }

    /// One past the last retained absolute position.
    pub fn end(&self) -> (r: usize)
        requires
            self.wf(),
        ensures
            r as int == self.end_pos(),
    {
        self.offset + self.record.len()
    }

    /// The number of retained bytes.
    pub fn retained_len(&self) -> (r: usize)
        ensures
            r == self.rec().len(),
    {
        self.record.len()
    }

    /// The active reference count at absolute position `at` as a concrete
    /// value: zero when no checkpoint is active there.
    pub fn count_at(&self, at: usize) -> (r: u8)
        requires
            self.wf(),
        ensures
            r as int == self.count_of(at as int),
    {
        let mut i: usize = 0;
        while i < self.checkpoints.len() && self.checkpoints[i].0 < at
            invariant
                i <= self.cps().len(),
                forall|j: int| 0 <= j < i ==> (#[trigger] self.cps()[j]).0 < at,
            decreases self.cps().len() - i,
        {
            i = i + 1;
        }
        if i < self.checkpoints.len() && self.checkpoints[i].0 == at {
            proof {
                lemma_count_at(self.cps(), i as int);
            }
            self.checkpoints[i].1
        } else {
            proof {
                assert forall|j: int| 0 <= j < self.cps().len() implies (#[trigger] self.cps()[j]).0
                    as int != at as int by {
                    if j >= i {
                        assert(self.cps()[i as int].0 >= at);
                        if j > i {
                            assert(self.cps()[i as int].0 < self.cps()[j].0);
                        }
                    }
                }
                lemma_count_absent(self.cps(), at as int);
            }
            0
        }
    }

    /// Destructive, front-aligned consumption: remove and return up to
    /// `bytes` bytes from the front of the retained range, never crossing
    /// the retention frontier.  These bytes can never be replayed again.
    pub fn pop(&mut self, pos: usize, bytes: usize) -> (r: (usize, Vec<u8>))
        requires
            old(self).wf(),
            pos == old(self).off(),
            old(self).end_pos() > pos,
        ensures
            final(self).wf(),
            r.0 == r.1@.len(),
            r.0 as int == vstd::math::min(bytes as int, old(self).first_cp() - old(self).off()),
            r.1@ == old(self).rec().subrange(0, r.0 as int),
            final(self).off() == old(self).off() + r.0,
            final(self).rec() == old(self).rec().subrange(
                r.0 as int,
                old(self).rec().len() as int,
            ),
            final(self).cps() == old(self).cps(),
    {
        let first = self.first_checkpoint();
        let avail = first - self.offset;
        let take = if bytes < avail {
            bytes
        } else {
            avail
        };
        let mut out: Vec<u8> = Vec::new();
        let mut i: usize = 0;
        while i < take
            invariant
                i <= take,
                take <= old(self).rec().len(),
                self.offset == old(self).offset,
                self.checkpoints == old(self).checkpoints,
                self.record@ == old(self).rec().subrange(i as int, old(self).rec().len() as int),
                out@ == old(self).rec().subrange(0, i as int),
            decreases take - i,
        {
            let b = self.record.pop_front();
            match b {
                Some(x) => {
                    out.push(x);
                    proof {
                        assert(old(self).rec().subrange(i as int, old(self).rec().len() as int)[0]
                            == old(self).rec()[i as int]);
                        assert(old(self).rec().subrange(0, i as int).push(old(self).rec()[i as int])
                            =~= old(self).rec().subrange(0, i as int + 1));
                        assert(old(self).rec().subrange(
                            i as int,
                            old(self).rec().len() as int,
                        ).subrange(
                            1,
                            old(self).rec().len() - i as int,
                        ) =~= old(self).rec().subrange(i as int + 1, old(self).rec().len() as int));
                    }
                },
                None => {
                    proof {
                        assert(false);
                    }
                },
            }
            i = i + 1;
        }
        self.offset = self.offset + take;
        (take, out)
    }

    /// Non-destructive consumption inside the retained range: return up to
    /// `bytes` bytes starting at absolute position `pos`, leaving the
    /// record untouched so that an active checkpoint can still replay them.
    pub fn pop_ref(&mut self, pos: usize, bytes: usize) -> (r: (usize, Vec<u8>))
        requires
            old(self).wf(),
            old(self).off() <= pos,
            old(self).end_pos() > pos,
        ensures
            *final(self) == *old(self),
            r.0 == r.1@.len(),
            r.0 as int == vstd::math::min(bytes as int, old(self).end_pos() - pos),
            r.1@ == old(self).rec().subrange(pos - old(self).off(), pos - old(self).off() + r.0),
    {
        let end = self.end();
        let take = if end - pos < bytes {
            end - pos
        } else {
            bytes
        };
        let idx = pos - self.offset;
        let mut out: Vec<u8> = Vec::new();
        let mut i: usize = 0;
        while i < take
            invariant
                i <= take,
                idx + take <= self.rec().len(),
                idx + take <= usize::MAX,
                idx as int == pos - self.off(),
                *self == *old(self),
                out@ == self.rec().subrange(idx as int, idx as int + i),
            decreases take - i,
        {
            out.push(self.record[idx + i]);
            assert(self.rec().subrange(idx as int, idx as int + i).push(
                self.rec()[idx as int + i],
            ) =~= self.rec().subrange(idx as int, idx as int + i + 1));
            i = i + 1;
        }
        (take, out)
    }

    /// Activate a checkpoint at absolute position `at`: when none is active
    /// the retention window restarts at `at`; the reference count at `at`
    /// is then incremented, inserting a fresh entry of count one if absent.
    pub fn set_checkpoint(&mut self, at: usize)
        requires
            old(self).wf(),
            old(self).count_of(at as int) < 255,
            old(self).cps().len() > 0 ==> old(self).off() <= at && at <= old(self).end_pos(),
            old(self).cps().len() == 0 ==> at + old(self).rec().len() <= usize::MAX,
        ensures
            final(self).wf(),
            final(self).rec() == old(self).rec(),
            final(self).off() == if old(self).cps().len() == 0 {
                at as int
            } else {
                old(self).off()
            },
            final(self).count_of(at as int) == old(self).count_of(at as int) + 1,
            forall|k: int| k != at as int ==> final(self).count_of(k) == old(self).count_of(k),
            final(self).cps().len() > 0,
            final(self).first_cp() == if old(self).cps().len() == 0 {
                at as int
            } else {
                vstd::math::min(old(self).first_cp(), at as int)
            },
    {
        let ghost prior = *self;
        let mut i: usize = 0;
        while i < self.checkpoints.len() && self.checkpoints[i].0 < at
            invariant
                *self == prior,
                i <= self.cps().len(),
                forall|j: int| 0 <= j < i ==> (#[trigger] self.cps()[j]).0 < at,
            decreases self.cps().len() - i,
        {
            i = i + 1;
        }
        if i < self.checkpoints.len() && self.checkpoints[i].0 == at {
            proof {
                lemma_count_at(self.cps(), i as int);
            }
            let c = self.checkpoints[i].1;
            self.checkpoints[i] = (at, c + 1);
            proof {
                assert forall|k: int| true implies seq_count(self.cps(), k) == seq_count(
                    prior.cps(),
                    k,
                ) + (if k == at as int {
                    1int
                } else {
                    0int
                }) by {
                    lemma_count_update(prior.cps(), i as int, (at, (c + 1) as u8), k);
                }
            }
        } else {
            if self.checkpoints.len() == 0 {
                self.offset = at;
            }
            proof {
                assert forall|j: int| 0 <= j < prior.cps().len() implies (#[trigger] prior.cps()[j]).0
                    as int != at as int by {
                    if j < i {
                    } else {
                        assert(prior.cps()[i as int].0 >= at);
                        assert(prior.cps()[i as int].0 != at);
                    }
                }
                lemma_count_absent(prior.cps(), at as int);
            }
            self.checkpoints.insert(i, (at, 1));
            proof {
                assert forall|k: int| true implies seq_count(self.cps(), k) == seq_count(
                    prior.cps(),
                    k,
                ) + (if k == at as int {
                    1int
                } else {
                    0int
                }) by {
                    lemma_count_insert(prior.cps(), i as int, (at, 1u8), k);
                }
            }
        }
    }

    /// Release one reference of the checkpoint at absolute position `cp`:
    /// its count is decremented, and the entry is removed once it reaches
    /// zero.  Calling this for a position with no active reference is a
    /// caller-contract violation, excluded by precondition.
    pub fn rewind(&mut self, cp: usize)
        requires
            old(self).wf(),
            old(self).count_of(cp as int) >= 1,
        ensures
            final(self).wf(),
            final(self).rec() == old(self).rec(),
            final(self).off() == old(self).off(),
            final(self).count_of(cp as int) == old(self).count_of(cp as int) - 1,
            forall|k: int| k != cp as int ==> final(self).count_of(k) == old(self).count_of(k),
            final(self).cps().len() == old(self).cps().len() - (if old(self).count_of(cp as int)
                == 1 {
                1int
            } else {
                0int
            }),
            old(self).count_of(cp as int) == 1 ==> exists|i: int|
                0 <= i < old(self).cps().len() && (#[trigger] old(self).cps()[i]).0 == cp
                    && final(self).cps() == old(self).cps().remove(i),
            old(self).count_of(cp as int) > 1 ==> exists|i: int|
                0 <= i < old(self).cps().len() && (#[trigger] old(self).cps()[i]).0 == cp
                    && final(self).cps() == old(self).cps().update(
                    i,
                    (cp, (old(self).cps()[i].1 - 1) as u8),
                ),
    {
        let ghost prior = *self;
        let mut i: usize = 0;
        while i < self.checkpoints.len() && self.checkpoints[i].0 < cp
            invariant
                *self == prior,
                i <= self.cps().len(),
                forall|j: int| 0 <= j < i ==> (#[trigger] self.cps()[j]).0 < cp,
            decreases self.cps().len() - i,
        {
            i = i + 1;
        }
        proof {
            lemma_count_pos(prior.cps(), cp as int);
            let j = choose|j: int|
                0 <= j < prior.cps().len() && (#[trigger] prior.cps()[j]).0 as int == cp as int;
            assert(j >= i);
            if i < prior.cps().len() && prior.cps()[i as int].0 != cp {
                assert(prior.cps()[i as int].0 > cp) by {
                    assert(prior.cps()[i as int].0 >= cp);
                }
                assert(j > i);
                assert(prior.cps()[j].0 > prior.cps()[i as int].0);
                assert(false);
            }
            assert(i < prior.cps().len() && prior.cps()[i as int].0 == cp);
            lemma_count_at(prior.cps(), i as int);
        }
        let c = self.checkpoints[i].1;
        if c == 1 {
            self.checkpoints.remove(i);
            proof {
                assert forall|k: int| true implies seq_count(self.cps(), k) == seq_count(
                    prior.cps(),
                    k,
                ) - (if k == cp as int {
                    1int
                } else {
                    0int
                }) by {
                    lemma_count_remove(prior.cps(), i as int, k);
                }
            }
        } else {
            self.checkpoints[i] = (cp, c - 1);
            proof {
                assert forall|k: int| true implies seq_count(self.cps(), k) == seq_count(
                    prior.cps(),
                    k,
                ) - (if k == cp as int {
                    1int
                } else {
                    0int
                }) by {
                    lemma_count_update(prior.cps(), i as int, (cp, (c - 1) as u8), k);
                }
            }
        }
    }
}

impl Default for Buffer {
    /// An empty ledger: nothing retained, no checkpoint active.
    fn default() -> (r: Self)
        ensures
            r.wf(),
            r.off() == 0,
            r.cps() == Seq::<(usize, u8)>::empty(),
            r.rec() == Seq::<u8>::empty(),
    {
        Buffer { offset: 0, checkpoints: Vec::new(), record: VecDeque::new() }
    }
}

} // verus!
