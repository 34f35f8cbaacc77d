//! Streaming destinations: what a [`WriteSerializer`](crate::WriteSerializer)
//! hands its bytes to.

use vstd::prelude::*;
use crate::overlay::overlay;
use crate::overlay::lemma_overlay_at_end;
use crate::overlay::lemma_overlay_consecutive;
use crate::overlay::lemma_overlay_nothing;

verus! {

/// A destination as a mathematical value: the bytes that it holds and the
/// offset at which it takes the next one.
pub struct Stream {
    /// All the bytes held, in order.
    pub contents: Seq<u8>,
    /// The offset at which the next byte taken will land.
    pub offset: nat,
}

impl Stream {
    /// The stream after it has taken `data` at its offset.
    pub open spec fn write(self, data: Seq<u8>) -> Stream {
        Stream {
            contents: overlay(self.contents, self.offset, data),
            offset: self.offset + data.len(),
        }
    }

    /// The stream after its offset has been put at `target`.
    pub open spec fn seek(self, target: nat) -> Stream {
        Stream { contents: self.contents, offset: target }
    }

    /// The stream after it has taken each run of `pieces` in turn.
    pub open spec fn write_each(self, pieces: Seq<Seq<u8>>) -> Stream
        decreases pieces.len(),
    {
        if pieces.len() == 0 {
            self
        } else {
            self.write(pieces.first()).write_each(pieces.drop_first())
        }
    }
}

/// A destination that takes a run of bytes piece by piece, however the
/// pieces are cut, ends up as if it had taken the run whole: every byte has
/// arrived, in order, and the offset has moved by the length of the run.
pub proof fn lemma_pieces_make_the_whole(stream: Stream, pieces: Seq<Seq<u8>>)
    ensures
        stream.write_each(pieces) == stream.write(pieces.flatten()),
        stream.write_each(pieces).offset == stream.offset + pieces.flatten().len(),
    decreases pieces.len(),
{
    if pieces.len() == 0 {
        lemma_overlay_nothing(stream.contents, stream.offset);
    } else {
        let first = pieces.first();
        let rest = pieces.drop_first();
        assert(pieces.flatten() == first + rest.flatten());
        lemma_pieces_make_the_whole(stream.write(first), rest);
        lemma_overlay_consecutive(stream.contents, stream.offset, first, rest.flatten());
    }
}

/// What taking `data` makes of a destination that is known as `model`. Of one
/// that is not known, nothing is known afterwards either.
pub open spec fn after_write(model: Option<Stream>, data: Seq<u8>) -> Option<Stream> {
    match model {
        Some(stream) => Some(stream.write(data)),
        None => None,
    }
}

/// What a seek to `target` makes of a destination that is known as `model`.
pub open spec fn after_seek(model: Option<Stream>, target: nat) -> Option<Stream> {
    match model {
        Some(stream) => Some(stream.seek(target)),
        None => None,
    }
}

/// Taking nothing leaves a destination as it was.
pub proof fn lemma_after_write_nothing(model: Option<Stream>)
    ensures
        after_write(model, Seq::<u8>::empty()) == model,
{
    if let Some(stream) = model {
        lemma_overlay_nothing(stream.contents, stream.offset);
    }
}

/// Taking one run and then the next is taking the two joined.
pub proof fn lemma_after_write_twice(model: Option<Stream>, first: Seq<u8>, second: Seq<u8>)
    ensures
        after_write(after_write(model, first), second) == after_write(model, first + second),
{
    if let Some(stream) = model {
        lemma_overlay_consecutive(stream.contents, stream.offset, first, second);
    }
}

/// A destination that takes bytes at an offset of its own and moves that
/// offset past what it took.
///
/// One call may take fewer bytes than it was given, but of a run that is not
/// empty it takes at least one, or reports an error and takes none.
///
/// A destination whose bytes verified code can see says so through `model`,
/// and its `write` is then held to it. One that keeps the default has no
/// model: of it only the count that `write` hands back is relied on.
pub trait Write {
    /// What the destination reports when it refuses.
    type Error;

    /// The destination as a mathematical value, where it has one.
    open spec fn model(&self) -> Option<Stream> {
        None
    }

    /// True of a destination that is sure to take what it is given, such as
    /// a vector. Of any other nothing is known beforehand.
    open spec fn accepts_writes(&self) -> bool {
        false
    }

    /// Takes a leading part of `bytes` and says how long that part is.
    fn write(&mut self, bytes: &[u8]) -> (r: Result<usize, Self::Error>)
        ensures
            match r {
                Ok(n) => {
                    &&& n <= bytes@.len()
                    &&& bytes@.len() > 0 ==> n > 0
                    &&& final(self).model() == after_write(old(self).model(), bytes@.take(n as int))
                },
                Err(_) => !old(self).accepts_writes() && final(self).model() == old(self).model(),
            },
            old(self).accepts_writes() ==> final(self).accepts_writes(),
    ;
}

/// A destination whose offset can be set.
pub trait Seek: Write {
    /// True where a seek to `target` is sure to be accepted.
    open spec fn accepts_seek(&self, target: nat) -> bool {
        false
    }

    /// Puts the offset at `target`, or reports an error and leaves it. The
    /// bytes held stay as they are either way.
    fn seek(&mut self, target: usize) -> (r: Result<(), Self::Error>)
        ensures
            match r {
                Ok(()) => final(self).model() == after_seek(old(self).model(), target as nat),
                Err(_) => !old(self).accepts_seek(target as nat) && final(self).model() == old(
                    self,
                ).model(),
            },
            old(self).accepts_writes() ==> final(self).accepts_writes(),
    ;
}

/// A vector takes every byte at its end and grows by it.
impl Write for Vec<u8> {
    type Error = core::convert::Infallible;

    open spec fn model(&self) -> Option<Stream> {
        Some(Stream { contents: self@, offset: self@.len() })
    }

    open spec fn accepts_writes(&self) -> bool {
        true
    }

    fn write(&mut self, bytes: &[u8]) -> (r: Result<usize, core::convert::Infallible>)
        ensures
            r == Ok::<usize, core::convert::Infallible>(bytes@.len() as usize),
            final(self)@ == old(self)@ + bytes@,
    {
        let count = bytes.len();
        let mut taken: usize = 0;
        while taken < count
            invariant
                count == bytes@.len(),
                taken <= count,
                self@ == old(self)@ + bytes@.take(taken as int),
            decreases count - taken,
        {
            self.push(bytes[taken]);
            proof {
                assert(bytes@.take(taken + 1) == bytes@.take(taken as int).push(
                    bytes@[taken as int],
                ));
            }
            taken = taken + 1;
        }
        proof {
            assert(bytes@.take(count as int) == bytes@);
            lemma_overlay_at_end(old(self)@, bytes@);
        }
        Ok(count)
    }
}

} // verus!
