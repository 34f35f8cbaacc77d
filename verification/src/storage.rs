//! Fixed-length byte regions that a sink can write into.

use vstd::prelude::*;

verus! {

/// A byte region of fixed length.
pub trait Storage {
    /// The bytes of the region, in order.
    spec fn bytes(&self) -> Seq<u8>;

    /// Number of bytes in the region.
    fn len(&self) -> (n: usize)
        ensures
            n == self.bytes().len(),
    ;

    /// Replaces the byte at `index` and leaves every other byte as it was.
    fn set(&mut self, index: usize, value: u8)
        requires
            index < old(self).bytes().len(),
        ensures
            final(self).bytes() == old(self).bytes().update(index as int, value),
    ;
}

impl Storage for Vec<u8> {
    open spec fn bytes(&self) -> Seq<u8> {
        self@
    }

    fn len(&self) -> (n: usize) {
        Vec::len(self)
    }

    fn set(&mut self, index: usize, value: u8) {
        self[index] = value;
    }
}

impl<const N: usize> Storage for [u8; N] {
    open spec fn bytes(&self) -> Seq<u8> {
        self@
    }

    fn len(&self) -> (n: usize) {
        N
    }

    fn set(&mut self, index: usize, value: u8) {
        self[index] = value;
    }
}

impl Storage for &mut [u8] {
    open spec fn bytes(&self) -> Seq<u8> {
        (**self)@
    }

    fn len(&self) -> (n: usize) {
        <[u8]>::len(self)
    }

    fn set(&mut self, index: usize, value: u8) {
        self[index] = value;
    }
}

} // verus!
