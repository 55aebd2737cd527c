use vstd::prelude::*;

verus! {

/// An in-memory byte source: a byte sequence together with a cursor.
///
/// It offers the two capabilities a reader may ask of a source: forward,
/// non-blocking reads that deliver each byte at most once (the cursor only
/// moves ahead), and native positioning for the seek-backed reader.
#[derive(Debug, Clone, PartialEq, Eq)]
pub struct MemSource {
    data: Vec<u8>,
    taken: usize,
}

impl MemSource {
    /// The full byte sequence of the source.
    pub closed spec fn data_seq(&self) -> Seq<u8> {
        self.data@
    }

    /// The cursor: the absolute position of the next byte to deliver.
    pub closed spec fn cursor(&self) -> int {
        self.taken as int
    }

    /// The cursor never points past the end of the data, which itself fits
    /// in memory.
    pub open spec fn wf(&self) -> bool {
        &&& 0 <= self.cursor()
        &&& self.cursor() <= self.data_seq().len()
        &&& self.data_seq().len() <= usize::MAX
    }

    /// A source over the given bytes, with the cursor at the start.
    pub fn new(data: Vec<u8>) -> (r: Self)
        ensures
            r.wf(),
            r.data_seq() == data@,
            r.cursor() == 0,
    {
        proof {
            assert(data@.len() == data.len());
        }
        MemSource { data, taken: 0 }
    }

    /// Deliver up to `n` bytes at the cursor and advance it: the source's
    /// non-blocking read attempt, which always makes whatever progress the
    /// remaining data allows.
    pub fn read_up_to(&mut self, n: usize) -> (r: Vec<u8>)
        requires
            old(self).wf(),
        ensures
            final(self).wf(),
            final(self).data_seq() == old(self).data_seq(),
            r@.len() == vstd::math::min(n as int, old(self).data_seq().len() - old(self).cursor()),
            final(self).cursor() == old(self).cursor() + r@.len(),
            r@ == old(self).data_seq().subrange(old(self).cursor(), final(self).cursor()),
    {
        let avail = self.data.len() - self.taken;
        let take = if n < avail {
            n
        } else {
            avail
        };
        let mut out: Vec<u8> = Vec::new();
        let mut i: usize = 0;
        while i < take
            invariant
                i <= take,
                self.taken + take <= self.data@.len(),
                self.taken + take <= usize::MAX,
                *self == *old(self),
                out@ == self.data@.subrange(self.cursor(), self.cursor() + i),
            decreases take - i,
        {
            out.push(self.data[self.taken + i]);
            assert(self.data@.subrange(self.cursor(), self.cursor() + i).push(
                self.data@[self.cursor() + i],
            ) =~= self.data@.subrange(self.cursor(), self.cursor() + i + 1));
            i = i + 1;
        }
        self.taken = self.taken + take;
        out
    }

    /// The cursor as a concrete position: the source's positioning query.
    pub fn tell(&self) -> (r: usize)
        ensures
            r as int == self.cursor(),
    {
        self.taken
    }

    /// Move the cursor to an absolute position: the source's native
    /// repositioning primitive.
    pub fn seek_to(&mut self, to: usize)
        requires
            old(self).wf(),
            to <= old(self).data_seq().len(),
        ensures
            final(self).wf(),
            final(self).data_seq() == old(self).data_seq(),
            final(self).cursor() == to as int,
    {
        self.taken = to;
    }

    /// The number of bytes the source holds in all.
    pub fn len(&self) -> (r: usize)
        ensures
            r == self.data_seq().len(),
    {
        self.data.len()
    }
}

} // verus!
