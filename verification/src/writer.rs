//! A sink over a streaming destination.

use vstd::prelude::*;
use vstd::slice::slice_subrange;
use crate::destination::Seek;
use crate::destination::Write;
use crate::destination::after_seek;
use crate::destination::after_write;
use crate::destination::lemma_after_write_nothing;
use crate::destination::lemma_after_write_twice;
use crate::ser::SeekSerializer;
use crate::ser::Serializer;

verus! {

/// A sink that hands its bytes to a streaming destination and counts what
/// the destination has taken.
pub struct WriteSerializer<W: Write> {
    inner: W,
    pos: usize,
}

impl<W: Write> WriteSerializer<W> {
    /// The destination that the sink holds.
    pub closed spec fn inner(&self) -> W {
        self.inner
    }

    /// The cursor of the sink.
    pub closed spec fn cursor(&self) -> nat {
        self.pos as nat
    }

    /// The destination is known, and the cursor is the offset at which it
    /// takes its next byte. This holds from the start where such a destination
    /// has not been written to, or where the sink was made with the offset
    /// that the destination had, and every operation of the sink keeps it.
    pub open spec fn in_step(&self) -> bool {
        self.inner().model() matches Some(stream) && stream.offset == self.cursor()
    }

    /// `after` is `before` once the destination has taken `data`: the cursor
    /// has moved past them, and a destination that is known holds them from
    /// its former offset on, with its offset moved past them too.
    pub open spec fn delivered(before: &Self, after: &Self, data: Seq<u8>) -> bool {
        &&& after.cursor() == before.cursor() + data.len()
        &&& after.inner().model() == after_write(before.inner().model(), data)
    }

    /// A sink over `inner` that counts from zero.
    pub fn new(inner: W) -> (s: Self)
        ensures
            s.inner() == inner,
            s.cursor() == 0,
    {
        Self::with_pos(inner, 0)
    }

    /// A sink over `inner` that counts from `pos`, for a destination that
    /// already stands at that offset. The offset is taken on trust.
    pub fn with_pos(inner: W, pos: usize) -> (s: Self)
        ensures
            s.inner() == inner,
            s.cursor() == pos,
    {
        Self { inner, pos }
    }

    /// Gives the destination back.
    pub fn into_inner(self) -> (inner: W)
        ensures
            inner == self.inner(),
    {
        self.inner
    }
}

impl<W: Write> Serializer for WriteSerializer<W> {
    type Error = W::Error;

    open spec fn position(&self) -> nat {
        self.cursor()
    }

    open spec fn admits(&self, count: nat) -> bool {
        self.cursor() + count <= usize::MAX
    }

    fn pos(&self) -> (p: usize) {
        self.pos
    }

    /// Hands `bytes` to the destination, again and again with what is left
    /// where it takes only a part, until it has taken them all or reports an
    /// error. The error is passed on as it came; the cursor has then moved by
    /// the bytes that were taken before it, which lie in the destination.
    /// Nothing is handed over of an empty run, which therefore cannot fail.
    fn write(&mut self, bytes: &[u8]) -> (r: Result<(), W::Error>)
        ensures
            match r {
                Ok(()) => Self::delivered(old(self), final(self), bytes@),
                Err(_) => {
                    let taken = final(self).cursor() - old(self).cursor();
                    &&& 0 <= taken < bytes@.len()
                    &&& Self::delivered(old(self), final(self), bytes@.take(taken))
                    &&& !old(self).inner().accepts_writes()
                },
            },
            bytes@.len() == 0 || old(self).inner().accepts_writes() ==> r is Ok,
            old(self).inner().accepts_writes() ==> final(self).inner().accepts_writes(),
            old(self).in_step() ==> final(self).in_step(),
    {
        let count = bytes.len();
        let mut taken: usize = 0;
        proof {
            lemma_after_write_nothing(self.inner.model());
            assert(bytes@.take(0) =~= Seq::<u8>::empty());
        }
        while taken < count
            invariant
                count == bytes@.len(),
                taken <= count,
                old(self).cursor() + count <= usize::MAX,
                Self::delivered(old(self), self, bytes@.take(taken as int)),
                old(self).inner().accepts_writes() ==> self.inner.accepts_writes(),
            decreases count - taken,
        {
            let rest = slice_subrange(bytes, taken, count);
            match self.inner.write(rest) {
                Ok(n) => {
                    proof {
                        lemma_after_write_twice(
                            old(self).inner().model(),
                            bytes@.take(taken as int),
                            rest@.take(n as int),
                        );
                        assert(bytes@.take(taken as int) + rest@.take(n as int) =~= bytes@.take(
                            taken + n,
                        ));
                    }
                    self.pos = self.pos + n;
                    taken = taken + n;
                },
                Err(e) => {
                    return Err(e);
                },
            }
        }
        proof {
            assert(bytes@.take(count as int) =~= bytes@);
        }
        Ok(())
    }
}

impl<W: Seek> SeekSerializer for WriteSerializer<W> {
    /// Has the destination set its offset to `target` and, where it does,
    /// counts on from there. An error of the destination is passed on as it
    /// came, and the cursor then stays.
    fn seek(&mut self, target: usize) -> (r: Result<(), W::Error>)
        ensures
            match r {
                Ok(()) => {
                    &&& final(self).cursor() == target
                    &&& final(self).inner().model() == after_seek(
                        old(self).inner().model(),
                        target as nat,
                    )
                },
                Err(_) => {
                    &&& final(self).cursor() == old(self).cursor()
                    &&& final(self).inner().model() == old(self).inner().model()
                    &&& !old(self).inner().accepts_seek(target as nat)
                },
            },
            old(self).inner().accepts_seek(target as nat) ==> r is Ok,
            old(self).inner().accepts_writes() ==> final(self).inner().accepts_writes(),
            old(self).in_step() ==> final(self).in_step(),
            r is Ok && old(self).inner().model() is Some ==> final(self).in_step(),
    {
        match self.inner.seek(target) {
            Ok(()) => {
                self.pos = target;
                Ok(())
            },
            Err(e) => Err(e),
        }
    }
}

} // verus!
