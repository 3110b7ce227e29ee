//! Compressed bitmaps of serving identifiers, provided by the `roaring` crate.
use vstd::prelude::*;
use roaring::RoaringBitmap;

verus! {

/// `roaring::RoaringBitmap`, a compressed set of `u32` values.
#[verifier::external_type_specification]
#[verifier::external_body]
pub struct ExRoaringBitmap(RoaringBitmap);

/// The set of values a bitmap holds.
pub uninterp spec fn bitmap_values(bitmap: RoaringBitmap) -> Set<u32>;

/// Whether `values` is strictly ascending.
pub open spec fn strictly_ascending(values: Seq<u32>) -> bool {
    forall|i: int, j: int| 0 <= i < j < values.len() ==> #[trigger] values[i] < #[trigger] values[j]
}

/// `RoaringBitmap::new`: the bitmap it creates holds no value.
#[verifier::external_body]
pub(crate) fn bitmap_new() -> (bitmap: RoaringBitmap)
    ensures
        bitmap_values(bitmap) == Set::<u32>::empty(),
{
    RoaringBitmap::new()
}

/// `RoaringBitmap::insert`: adds `value` to the set and reports whether it was absent.
#[verifier::external_body]
pub(crate) fn bitmap_insert(bitmap: &mut RoaringBitmap, value: u32) -> (absent: bool)
    ensures
        bitmap_values(*final(bitmap)) == bitmap_values(*old(bitmap)).insert(value),
        absent == !bitmap_values(*old(bitmap)).contains(value),
{
    bitmap.insert(value)
}

/// `RoaringBitmap::iter`, collected: every value of the set once, in ascending order,
/// as the crate documents for its iterator.
#[verifier::external_body]
pub(crate) fn bitmap_sorted_values(bitmap: &RoaringBitmap) -> (values: Vec<u32>)
    ensures
        strictly_ascending(values@),
        values@.to_set() == bitmap_values(*bitmap),
{
    bitmap.iter().collect()
}

} // verus!
