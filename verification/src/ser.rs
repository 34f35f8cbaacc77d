//! The capabilities that every sink offers, and those that only some do.

use vstd::prelude::*;

verus! {

/// A sink: it takes bytes at a cursor and moves the cursor past them.
pub trait Serializer {
    /// What a refused operation reports.
    type Error;

    /// The cursor: the absolute offset at which the next byte will land.
    spec fn position(&self) -> nat;

    /// Whether the cursor can move `count` bytes on and still be a `usize`.
    /// A sink that checks this itself admits every count.
    spec fn admits(&self, count: nat) -> bool;

    /// Reads the cursor. The sink is left as it is, so any number of reads
    /// between two operations that change it give the same value.
    fn pos(&self) -> (p: usize)
        ensures
            p == self.position(),
    ;

    /// Writes `bytes` at the cursor. On success all of them have landed, in
    /// order and in one piece, and the cursor stands behind the last.
    fn write(&mut self, bytes: &[u8]) -> (r: Result<(), Self::Error>)
        requires
            old(self).admits(bytes@.len()),
        ensures
            r is Ok ==> final(self).position() == old(self).position() + bytes@.len(),
    ;
}

/// A sink that can reserve room without being handed the bytes for it.
pub trait PadSerializer: Serializer {
    /// Moves the cursor `count` bytes on. What the skipped bytes hold is up to
    /// the sink.
    fn pad(&mut self, count: usize) -> (r: Result<(), Self::Error>)
        requires
            old(self).admits(count as nat),
        ensures
            r is Ok ==> final(self).position() == old(self).position() + count,
    ;
}

/// A sink whose cursor can be put back, or forward, to an absolute offset, so
/// that bytes written earlier can be patched.
pub trait SeekSerializer: Serializer {
    /// Puts the cursor at `target`. The next write starts there.
    fn seek(&mut self, target: usize) -> (r: Result<(), Self::Error>)
        ensures
            r is Ok ==> final(self).position() == target,
    ;
}

} // verus!
