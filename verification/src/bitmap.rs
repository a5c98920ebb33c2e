//! The set of still-active page indices of one file, kept as a compressed
//! bitmap by the `roaring` crate.
use vstd::prelude::*;

verus! {

#[verifier::external_type_specification]
#[verifier::external_body]
pub struct ExRoaringBitmap(roaring::RoaringBitmap);

/// The set of indices a bitmap holds.
pub uninterp spec fn bitmap_contents(b: roaring::RoaringBitmap) -> Set<u32>;

/// Relies on roaring::RoaringBitmap::remove: takes one index out of the set
/// and reports whether it was present.
#[verifier::external_body]
pub fn bitmap_remove(b: &mut roaring::RoaringBitmap, value: u32) -> (r: bool)
    ensures
        bitmap_contents(*final(b)) == bitmap_contents(*old(b)).remove(value),
        r == bitmap_contents(*old(b)).contains(value),
{
    b.remove(value)
}

/// Relies on roaring::RoaringBitmap::contains: membership in the set.
#[verifier::external_body]
pub fn bitmap_contains(b: &roaring::RoaringBitmap, value: u32) -> (r: bool)
    ensures
        r == bitmap_contents(*b).contains(value),
{
    b.contains(value)
}

} // verus!
