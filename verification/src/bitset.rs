//! What the verified code assumes about `fixedbitset::FixedBitSet`.
//!
//! Nothing in this file is proved. Each contract restates what the
//! `fixedbitset` sources and documentation say about one method.

use fixedbitset::FixedBitSet;
use vstd::prelude::*;

verus! {

/// `fixedbitset::FixedBitSet`, opaque to the verifier.
#[verifier::external_type_specification]
#[verifier::external_body]
pub struct ExFixedBitSet(fixedbitset::FixedBitSet);

/// The bits a `FixedBitSet` holds, in index order. Its length is the length
/// of the set in bits.
pub uninterp spec fn bits(s: FixedBitSet) -> Seq<bool>;

/// `FixedBitSet::with_capacity`: a set of `n` bits, all of them clear.
pub assume_specification[ FixedBitSet::with_capacity ](n: usize) -> (s: FixedBitSet)
    ensures
        bits(s).len() == n,
        forall|i: int| 0 <= i < n ==> !(#[trigger] bits(s)[i]),
;

/// `FixedBitSet::contains`: for an index inside the set, the value of that
/// bit. Nothing is claimed for an index at or beyond the length.
pub assume_specification[ FixedBitSet::contains ](s: &FixedBitSet, bit: usize) -> (b: bool)
    ensures
        bit < bits(*s).len() ==> b == bits(*s)[bit as int],
;

/// `FixedBitSet::set`: writes `enabled` to bit `bit` and leaves every other
/// bit as it was. The method panics when `bit` is out of bounds, so the
/// contract asks for an index inside the set.
pub assume_specification[ FixedBitSet::set ](s: &mut FixedBitSet, bit: usize, enabled: bool)
    requires
        bit < bits(*old(s)).len(),
    ensures
        bits(*final(s)) == bits(*old(s)).update(bit as int, enabled),
;

/// `FixedBitSet::put`: enables bit `bit`, leaves every other bit as it was
/// and returns the bit's previous value. The method panics when `bit` is out
/// of bounds, so the contract asks for an index inside the set.
pub assume_specification[ FixedBitSet::put ](s: &mut FixedBitSet, bit: usize) -> (prev: bool)
    requires
        bit < bits(*old(s)).len(),
    ensures
        prev == bits(*old(s))[bit as int],
        bits(*final(s)) == bits(*old(s)).update(bit as int, true),
;

/// `<FixedBitSet as Clone>::clone`: a set with the same length and the same
/// bits.
pub assume_specification[ <FixedBitSet as Clone>::clone ](s: &FixedBitSet) -> (c: FixedBitSet)
    ensures
        bits(c) == bits(*s),
;

} // verus!
