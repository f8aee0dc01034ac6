use bit_set::BitSet;
use vstd::prelude::*;

verus! {

#[verifier::external_type_specification]
#[verifier::external_body]
#[verifier::reject_recursive_types(B)]
pub struct ExBitSet<B>(BitSet<B>);

/// The indices whose bit is set.
pub uninterp spec fn bit_set_members(s: BitSet) -> Set<nat>;

/// Relies on `BitSet::new`: a set with no bit set.
#[verifier::external_body]
pub(crate) fn bits_new() -> (r: BitSet)
    ensures
        bit_set_members(r) == Set::<nat>::empty(),
{
    BitSet::new()
}

/// Relies on `BitSet::contains`: whether the bit at `i` is set.
#[verifier::external_body]
pub(crate) fn bits_contains(s: &BitSet, i: usize) -> (r: bool)
    ensures
        r == bit_set_members(*s).contains(i as nat),
{
    s.contains(i)
}

/// Relies on `BitSet::insert`: sets the bit at `i`, growing the set as needed.
#[verifier::external_body]
pub(crate) fn bits_insert(s: &mut BitSet, i: usize)
    ensures
        bit_set_members(*final(s)) == bit_set_members(*old(s)).insert(i as nat),
{
    s.insert(i);
}

/// Relies on `BitSet::remove`: clears the bit at `i`.
#[verifier::external_body]
pub(crate) fn bits_remove(s: &mut BitSet, i: usize)
    ensures
        bit_set_members(*final(s)) == bit_set_members(*old(s)).remove(i as nat),
{
    s.remove(i);
}

} // verus!
