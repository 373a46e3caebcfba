//! Trusted boundary to the packed bit array of the `bit-vec` crate.
//!
//! The filter's bit array is a `bit_vec::BitVec`, one bit per flag. Verus
//! sees that type only through the declarations here: `bits_of` names the
//! sequence of booleans a vector holds, and the three wrappers state what
//! the crate's constructor and accessors do to that sequence.

use vstd::prelude::*;

verus! {

#[verifier::external_type_specification]
#[verifier::external_body]
#[verifier::reject_recursive_types(B)]
pub struct ExBitVec<B>(bit_vec::BitVec<B>);

/// The sequence of bits a `bit_vec::BitVec` holds, in index order.
pub uninterp spec fn bits_of(b: bit_vec::BitVec<u32>) -> Seq<bool>;

/// Relies on `bit_vec::BitVec::from_elem`: a vector of `len` bits, each
/// equal to `bit`.
#[verifier::external_body]
pub(crate) fn bv_from_elem(len: usize, bit: bool) -> (r: bit_vec::BitVec<u32>)
    ensures
        bits_of(r) == Seq::new(len as nat, |i: int| bit),
{
    bit_vec::BitVec::from_elem(len, bit)
}

/// Relies on `bit_vec::BitVec::set`: stores `x` at index `i` and moves no
/// other bit. It panics when `i` is out of range, so that is required away.
#[verifier::external_body]
pub(crate) fn bv_set(b: &mut bit_vec::BitVec<u32>, i: usize, x: bool)
    requires
        i < bits_of(*old(b)).len(),
    ensures
        bits_of(*final(b)) == bits_of(*old(b)).update(i as int, x),
{
    b.set(i, x)
}

/// Relies on `bit_vec::BitVec::get`: the bit at `i` when `i` is in range,
/// `None` otherwise.
#[verifier::external_body]
pub(crate) fn bv_get(b: &bit_vec::BitVec<u32>, i: usize) -> (r: Option<bool>)
    ensures
        r == (if i < bits_of(*b).len() {
            Some(bits_of(*b)[i as int])
        } else {
            None::<bool>
        }),
{
    b.get(i)
}

} // verus!
