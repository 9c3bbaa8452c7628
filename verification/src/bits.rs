//! The spin state lives in a `bitvec::vec::BitVec`, one bit per site.
//!
//! Verus cannot see inside the outside vector, so it is held in an opaque
//! `SpinState`, and every operation the library needs goes through a small
//! trusted wrapper whose contract speaks of `bits_of`, the sequence of bits
//! the vector holds.
use vstd::prelude::*;

use bitvec::vec::BitVec;

verus! {

/// An opaque holder for bitvec's `BitVec`.
#[verifier::external_body]
pub struct SpinState {
    inner: BitVec,
}

/// The bits a `SpinState` holds, in index order.
pub uninterp spec fn bits_of(v: SpinState) -> Seq<bool>;

/// Relies on `BitVec::repeat`: a vector of `len` copies of `bit`.
#[verifier::external_body]
pub fn bits_repeat(bit: bool, len: usize) -> (r: SpinState)
    requires
        len <= 0x1000_0000,
    ensures
        bits_of(r) == Seq::new(len as nat, |i: int| bit),
{
    SpinState { inner: BitVec::repeat(bit, len) }
}

/// Relies on `BitSlice::len`, reached through `BitVec`'s deref.
#[verifier::external_body]
pub fn bits_len(v: &SpinState) -> (r: usize)
    ensures
        r == bits_of(*v).len(),
{
    v.inner.len()
}

/// Relies on `BitSlice`'s `Index<usize>` impl: the bit at `index`.
#[verifier::external_body]
pub fn bits_get(v: &SpinState, index: usize) -> (r: bool)
    requires
        index < bits_of(*v).len(),
    ensures
        r == bits_of(*v)[index as int],
{
    v.inner[index]
}

/// Relies on `BitSlice::set`: writes one bit, leaves the rest.
#[verifier::external_body]
pub fn bits_set(v: &mut SpinState, index: usize, value: bool)
    requires
        index < bits_of(*old(v)).len(),
    ensures
        bits_of(*final(v)) == bits_of(*old(v)).update(index as int, value),
{
    v.inner.set(index, value)
}

/// Relies on `BitVec::push`: appends one bit.
#[verifier::external_body]
pub fn bits_push(v: &mut SpinState, value: bool)
    requires
        bits_of(*old(v)).len() < 0x1000_0000,
    ensures
        bits_of(*final(v)) == bits_of(*old(v)).push(value),
{
    v.inner.push(value)
}

/// Relies on `BitVec`'s `Clone` impl: an independent copy of the same bits.
#[verifier::external_body]
pub fn bits_clone(v: &SpinState) -> (r: SpinState)
    ensures
        bits_of(r) == bits_of(*v),
{
    SpinState { inner: v.inner.clone() }
}

} // verus!
