//! A destination in memory that can seek.

use vstd::prelude::*;
use crate::destination::Seek;
use crate::destination::Stream;
use crate::destination::Write;
use crate::overlay::overlay;

verus! {

/// What a [`MemoryWriter`] reports when a seek aims past its last byte.
#[derive(Debug, Clone, Copy, PartialEq, Eq, Structural)]
pub struct SeekPastEnd {
    /// The offset that was asked for.
    pub target: usize,
    /// How many bytes the writer held.
    pub len: usize,
}

/// A growing run of bytes with an offset that never lies past its end.
///
/// Bytes written at the end make it longer, bytes written before the end
/// replace what was there. It takes every write whole, and seeks to any
/// offset up to its end.
pub struct MemoryWriter {
    data: Vec<u8>,
    offset: usize,
}

impl MemoryWriter {
    #[verifier::type_invariant]
    spec fn offset_within(&self) -> bool {
        self.offset <= self.data@.len()
    }

    /// The bytes held and the offset.
    pub closed spec fn stream(&self) -> Stream {
        Stream { contents: self.data@, offset: self.offset as nat }
    }

    /// A writer that holds nothing yet.
    pub fn new() -> (w: Self)
        ensures
            w.stream() == (Stream { contents: Seq::empty(), offset: 0 }),
    {
        MemoryWriter { data: Vec::new(), offset: 0 }
    }

    /// Gives up the bytes held.
    pub fn into_inner(self) -> (data: Vec<u8>)
        ensures
            data@ == self.stream().contents,
    {
        self.data
    }
}

impl Write for MemoryWriter {
    type Error = SeekPastEnd;

    open spec fn model(&self) -> Option<Stream> {
        Some(self.stream())
    }

    open spec fn accepts_writes(&self) -> bool {
        true
    }

    /// Takes all of `bytes`.
    fn write(&mut self, bytes: &[u8]) -> (r: Result<usize, SeekPastEnd>)
        ensures
            r == Ok::<usize, SeekPastEnd>(bytes@.len() as usize),
            old(self).stream().offset <= old(self).stream().contents.len(),
            final(self).stream().offset <= final(self).stream().contents.len(),
    {
        proof {
            use_type_invariant(&*self);
        }
        // The bytes leave `self` for the loop and come back after it, so that
        // the bound on the offset is checked once, when the writer is put
        // together again.
        let mut held = MemoryWriter::new();
        core::mem::swap(self, &mut held);
        let MemoryWriter { data, offset } = held;
        let mut data = data;
        let mut offset = offset;
        let count = bytes.len();
        let mut taken: usize = 0;
        while taken < count
            invariant
                count == bytes@.len(),
                taken <= count,
                offset == old(self).offset + taken,
                offset <= data@.len(),
                data@ == overlay(old(self).data@, old(self).offset as nat, bytes@.take(taken as int)),
            decreases count - taken,
        {
            let len = data.len();
            if offset < len {
                data.set(offset, bytes[taken]);
            } else {
                data.push(bytes[taken]);
            }
            proof {
                assert(data@.len() == data.len());
            }
            offset = offset + 1;
            proof {
                assert(bytes@.take(taken + 1) == bytes@.take(taken as int).push(
                    bytes@[taken as int],
                ));
                assert(data@ =~= overlay(
                    old(self).data@,
                    old(self).offset as nat,
                    bytes@.take(taken + 1),
                ));
            }
            taken = taken + 1;
        }
        proof {
            assert(bytes@.take(count as int) == bytes@);
        }
        *self = MemoryWriter { data, offset };
        Ok(count)
    }
}

impl Seek for MemoryWriter {
    open spec fn accepts_seek(&self, target: nat) -> bool {
        target <= self.stream().contents.len()
    }

    /// Puts the offset at `target` if that is no more than the number of
    /// bytes held.
    fn seek(&mut self, target: usize) -> (r: Result<(), SeekPastEnd>)
        ensures
            match r {
                Ok(()) => target <= old(self).stream().contents.len(),
                Err(e) => target > old(self).stream().contents.len() && e == (SeekPastEnd {
                    target,
                    len: old(self).stream().contents.len() as usize,
                }),
            },
    {
        let len = self.data.len();
        if target > len {
            return Err(SeekPastEnd { target, len });
        }
        self.offset = target;
        Ok(())
    }
}

} // verus!
