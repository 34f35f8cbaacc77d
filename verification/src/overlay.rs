//! What a run of bytes does to the bytes it is written over.

use vstd::prelude::*;

verus! {

/// `base` after `data` has been written over it from index `at` on.
///
/// Bytes under the written range are replaced, all others are kept. Where the
/// range ends past the end of `base` the result grows to hold it, and a gap
/// between the end of `base` and `at` reads as zero. Writing nothing changes
/// nothing.
pub open spec fn overlay(base: Seq<u8>, at: nat, data: Seq<u8>) -> Seq<u8> {
    let end = at + data.len();
    let len = if data.len() == 0 || end <= base.len() {
        base.len()
    } else {
        end as nat
    };
    Seq::new(
        len,
        |i: int|
            if at <= i < end {
                data[i - at]
            } else if i < base.len() {
                base[i]
            } else {
                0u8
            },
    )
}

/// Writing nothing leaves the bytes as they were.
pub proof fn lemma_overlay_nothing(base: Seq<u8>, at: nat)
    ensures
        overlay(base, at, Seq::<u8>::empty()) == base,
{
    assert(overlay(base, at, Seq::<u8>::empty()) =~= base);
}

/// A write that ends within `base` keeps its length, puts `data` at
/// `at..at + data.len()` and touches no byte outside that range.
pub proof fn lemma_overlay_within(base: Seq<u8>, at: nat, data: Seq<u8>)
    requires
        at + data.len() <= base.len(),
    ensures
        overlay(base, at, data).len() == base.len(),
        overlay(base, at, data).subrange(at as int, at as int + data.len()) == data,
        forall|i: int|
            0 <= i < base.len() && !(at <= i < at + data.len()) ==> overlay(base, at, data)[i]
                == base[i],
{
    assert(overlay(base, at, data).subrange(at as int, at as int + data.len()) =~= data);
}

/// A write at the very end of `base` appends `data`.
pub proof fn lemma_overlay_at_end(base: Seq<u8>, data: Seq<u8>)
    ensures
        overlay(base, base.len(), data) == base + data,
{
    assert(overlay(base, base.len(), data) =~= base + data);
}

/// Two writes, the second starting where the first ended, amount to one write
/// of the two runs joined.
pub proof fn lemma_overlay_consecutive(base: Seq<u8>, at: nat, first: Seq<u8>, second: Seq<u8>)
    ensures
        overlay(overlay(base, at, first), at + first.len(), second) == overlay(
            base,
            at,
            first + second,
        ),
{
    assert(overlay(overlay(base, at, first), at + first.len(), second) =~= overlay(
        base,
        at,
        first + second,
    ));
}

} // verus!
