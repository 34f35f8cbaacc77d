//! A sink over a byte region of fixed length.

use vstd::prelude::*;
use crate::overlay::overlay;
use crate::overlay::lemma_overlay_consecutive;
use crate::overlay::lemma_overlay_nothing;
use crate::overlay::lemma_overlay_within;
use crate::ser::PadSerializer;
use crate::ser::SeekSerializer;
use crate::ser::Serializer;
use crate::storage::Storage;

verus! {

/// Why a [`BufferSerializer`] refused an operation.
#[derive(Debug, Clone, Copy, PartialEq, Eq, Structural)]
pub enum BufferSerializerError {
    /// A write or a pad would have run past the end of the region.
    Overflow {
        /// The cursor when the operation was refused.
        pos: usize,
        /// How many bytes the operation asked for.
        bytes_needed: usize,
        /// The length of the region.
        archive_len: usize,
    },
    /// A seek aimed past the end of the region.
    SoughtPastEnd {
        /// The offset that was asked for.
        seek_position: usize,
        /// The length of the region.
        archive_len: usize,
    },
}

/// A buffer sink as a mathematical value: the bytes of its region and its
/// cursor.
pub struct BufferState {
    /// The bytes of the region.
    pub storage: Seq<u8>,
    /// The cursor.
    pub pos: nat,
}

impl BufferState {
    /// The cursor lies within the region, or just behind its last byte.
    pub open spec fn in_bounds(self) -> bool {
        self.pos <= self.storage.len()
    }

    /// `count` more bytes still end within the region.
    pub open spec fn fits(self, count: nat) -> bool {
        self.pos + count <= self.storage.len()
    }

    /// What a write or a pad of `count` bytes reports when it does not fit.
    pub open spec fn overflow(self, count: nat) -> BufferSerializerError {
        BufferSerializerError::Overflow {
            pos: self.pos as usize,
            bytes_needed: count as usize,
            archive_len: self.storage.len() as usize,
        }
    }

    /// What a seek to `target` reports when `target` lies past the end.
    pub open spec fn sought_past_end(self, target: nat) -> BufferSerializerError {
        BufferSerializerError::SoughtPastEnd {
            seek_position: target as usize,
            archive_len: self.storage.len() as usize,
        }
    }

    /// The state after `bytes` have been written at the cursor.
    pub open spec fn write(self, bytes: Seq<u8>) -> BufferState
        recommends
            self.fits(bytes.len()),
    {
        BufferState { storage: overlay(self.storage, self.pos, bytes), pos: self.pos + bytes.len() }
    }

    /// The state after the cursor has skipped `count` bytes.
    pub open spec fn pad(self, count: nat) -> BufferState
        recommends
            self.fits(count),
    {
        BufferState { storage: self.storage, pos: self.pos + count }
    }

    /// The state after the cursor has been put at `target`.
    pub open spec fn seek(self, target: nat) -> BufferState
        recommends
            target <= self.storage.len(),
    {
        BufferState { storage: self.storage, pos: target }
    }

    /// Whether each run of `chunks` fits when they are written in turn, every
    /// one at the cursor that the one before has left.
    pub open spec fn fits_each(self, chunks: Seq<Seq<u8>>) -> bool
        decreases chunks.len(),
    {
        if chunks.len() == 0 {
            true
        } else {
            self.fits(chunks.first().len()) && self.write(chunks.first()).fits_each(
                chunks.drop_first(),
            )
        }
    }

    /// The state after each run of `chunks` has been written in turn.
    pub open spec fn write_each(self, chunks: Seq<Seq<u8>>) -> BufferState
        recommends
            self.fits_each(chunks),
        decreases chunks.len(),
    {
        if chunks.len() == 0 {
            self
        } else {
            self.write(chunks.first()).write_each(chunks.drop_first())
        }
    }
}

/// A write that fits leaves the cursor within the region, keeps the length of
/// the region, puts the bytes where the cursor stood and changes no byte
/// elsewhere.
pub proof fn lemma_write_lands(s: BufferState, bytes: Seq<u8>)
    requires
        s.fits(bytes.len()),
    ensures
        s.write(bytes).in_bounds(),
        s.write(bytes).pos == s.pos + bytes.len(),
        s.write(bytes).storage.len() == s.storage.len(),
        s.write(bytes).storage.subrange(s.pos as int, s.pos as int + bytes.len()) == bytes,
        forall|i: int|
            0 <= i < s.storage.len() && !(s.pos <= i < s.pos + bytes.len()) ==> s.write(
                bytes,
            ).storage[i] == s.storage[i],
{
    lemma_overlay_within(s.storage, s.pos, bytes);
}

/// Two writes in a row are one write of the two runs joined: the second fits
/// behind the first exactly if the joined run fits, and the state is the same.
pub proof fn lemma_write_twice(s: BufferState, first: Seq<u8>, second: Seq<u8>)
    ensures
        s.fits(first.len()) && s.write(first).fits(second.len()) <==> s.fits(
            (first + second).len(),
        ),
        s.write(first).write(second) == s.write(first + second),
{
    lemma_overlay_consecutive(s.storage, s.pos, first, second);
}

/// Writing runs of bytes one after another is writing them joined, once.
///
/// From a cursor within the region, every write of the series is accepted
/// exactly if the joined bytes fit. The series then leaves the state that the
/// one write of the joined bytes leaves, and the region holds the joined bytes
/// from where the cursor stood at the start: from its first byte, where the
/// series began there.
pub proof fn lemma_write_each_is_one_write(s: BufferState, chunks: Seq<Seq<u8>>)
    requires
        s.in_bounds(),
    ensures
        s.fits_each(chunks) <==> s.fits(chunks.flatten().len()),
        s.fits_each(chunks) ==> s.write_each(chunks) == s.write(chunks.flatten()),
        s.fits_each(chunks) ==> s.write_each(chunks).storage.subrange(
            s.pos as int,
            s.pos as int + chunks.flatten().len(),
        ) == chunks.flatten(),
    decreases chunks.len(),
{
    if chunks.len() == 0 {
        lemma_overlay_nothing(s.storage, s.pos);
        assert(s.storage.subrange(s.pos as int, s.pos as int) =~= Seq::<u8>::empty());
    } else {
        let first = chunks.first();
        let rest = chunks.drop_first();
        assert(chunks.flatten() == first + rest.flatten());
        if s.fits(first.len()) {
            lemma_write_lands(s, first);
            lemma_write_each_is_one_write(s.write(first), rest);
            lemma_write_twice(s, first, rest.flatten());
            if s.fits_each(chunks) {
                lemma_write_lands(s, chunks.flatten());
            }
        }
    }
}

/// A sink that writes into a byte region of fixed length, never past its end.
pub struct BufferSerializer<T> {
    inner: T,
    pos: usize,
}

impl<T> BufferSerializer<T> {
    /// The region that the sink holds.
    pub closed spec fn inner(&self) -> T {
        self.inner
    }

    /// The cursor of the sink.
    pub closed spec fn cursor(&self) -> nat {
        self.pos as nat
    }

    /// A sink over `inner` with its cursor at the first byte.
    pub fn new(inner: T) -> (s: Self)
        ensures
            s.inner() == inner,
            s.cursor() == 0,
    {
        Self::with_pos(inner, 0)
    }

    /// A sink over `inner` that goes on at `pos`. The offset is taken on
    /// trust: one past the end of the region is only found by the first
    /// operation that needs room.
    pub fn with_pos(inner: T, pos: usize) -> (s: Self)
        ensures
            s.inner() == inner,
            s.cursor() == pos,
    {
        Self { inner, pos }
    }

    /// Gives the region back.
    pub fn into_inner(self) -> (inner: T)
        ensures
            inner == self.inner(),
    {
        self.inner
    }
}

impl<T: Storage> View for BufferSerializer<T> {
    type V = BufferState;

    open spec fn view(&self) -> BufferState {
        BufferState { storage: self.inner().bytes(), pos: self.cursor() }
    }
}

impl<T: Storage> Serializer for BufferSerializer<T> {
    type Error = BufferSerializerError;

    open spec fn position(&self) -> nat {
        self.cursor()
    }

    open spec fn admits(&self, count: nat) -> bool {
        true
    }

    fn pos(&self) -> (p: usize) {
        self.pos
    }

    /// Copies `bytes` into the region at the cursor if they end within it,
    /// and refuses them whole if they do not: a refused write changes neither
    /// the region nor the cursor.
    fn write(&mut self, bytes: &[u8]) -> (r: Result<(), BufferSerializerError>)
        ensures
            match r {
                Ok(()) => old(self)@.fits(bytes@.len()) && final(self)@ == old(self)@.write(bytes@),
                Err(e) => !old(self)@.fits(bytes@.len()) && final(self)@ == old(self)@ && e == old(
                    self,
                )@.overflow(bytes@.len()),
            },
            r is Ok ==> final(self)@.in_bounds(),
            r is Ok ==> final(self)@.storage.len() == old(self)@.storage.len(),
            r is Ok ==> final(self)@.storage.subrange(
                old(self)@.pos as int,
                old(self)@.pos as int + bytes@.len(),
            ) == bytes@,
            r is Ok ==> forall|i: int|
                0 <= i < old(self)@.storage.len() && !(old(self)@.pos <= i < old(self)@.pos
                    + bytes@.len()) ==> final(self)@.storage[i] == old(self)@.storage[i],
    {
        let archive_len = self.inner.len();
        let bytes_needed = bytes.len();
        if self.pos > archive_len || bytes_needed > archive_len - self.pos {
            return Err(
                BufferSerializerError::Overflow { pos: self.pos, bytes_needed, archive_len },
            );
        }
        let start = self.pos;
        let mut copied: usize = 0;
        while copied < bytes_needed
            invariant
                bytes_needed == bytes@.len(),
                archive_len == old(self)@.storage.len(),
                start + bytes_needed <= archive_len,
                copied <= bytes_needed,
                self.pos == start,
                start == old(self).cursor(),
                self.inner.bytes() == overlay(
                    old(self)@.storage,
                    start as nat,
                    bytes@.take(copied as int),
                ),
            decreases bytes_needed - copied,
        {
            self.inner.set(start + copied, bytes[copied]);
            proof {
                let before = bytes@.take(copied as int);
                assert(bytes@.take(copied + 1) == before.push(bytes@[copied as int]));
                assert(self.inner.bytes() =~= overlay(
                    old(self)@.storage,
                    start as nat,
                    bytes@.take(copied + 1),
                ));
            }
            copied = copied + 1;
        }
        self.pos = start + bytes_needed;
        proof {
            assert(bytes@.take(bytes_needed as int) == bytes@);
            lemma_overlay_within(old(self)@.storage, start as nat, bytes@);
        }
        Ok(())
    }
}

impl<T: Storage> PadSerializer for BufferSerializer<T> {
    /// Moves the cursor `count` bytes on if that many still lie within the
    /// region. The bytes skipped are not written: they keep whatever the
    /// region held, which need not be zero.
    fn pad(&mut self, count: usize) -> (r: Result<(), BufferSerializerError>)
        ensures
            match r {
                Ok(()) => old(self)@.fits(count as nat) && final(self)@ == old(self)@.pad(
                    count as nat,
                ),
                Err(e) => !old(self)@.fits(count as nat) && final(self)@ == old(self)@ && e == old(
                    self,
                )@.overflow(count as nat),
            },
            final(self)@.storage == old(self)@.storage,
            r is Ok ==> final(self)@.in_bounds(),
    {
        let archive_len = self.inner.len();
        if self.pos > archive_len || count > archive_len - self.pos {
            return Err(
                BufferSerializerError::Overflow {
                    pos: self.pos,
                    bytes_needed: count,
                    archive_len,
                },
            );
        }
        self.pos = self.pos + count;
        Ok(())
    }
}

impl<T: Storage> SeekSerializer for BufferSerializer<T> {
    /// Puts the cursor at `target` if that lies within the region or just
    /// behind its last byte, whether this is backward or forward. A refused
    /// seek leaves the cursor where it was.
    fn seek(&mut self, target: usize) -> (r: Result<(), BufferSerializerError>)
        ensures
            match r {
                Ok(()) => target <= old(self)@.storage.len() && final(self)@ == old(self)@.seek(
                    target as nat,
                ),
                Err(e) => target > old(self)@.storage.len() && final(self)@ == old(self)@ && e
                    == old(self)@.sought_past_end(target as nat),
            },
            final(self)@.storage == old(self)@.storage,
            r is Ok ==> final(self)@.in_bounds(),
    {
        let archive_len = self.inner.len();
        if target > archive_len {
            return Err(
                BufferSerializerError::SoughtPastEnd { seek_position: target, archive_len },
            );
        }
        self.pos = target;
        Ok(())
    }
}

} // verus!
