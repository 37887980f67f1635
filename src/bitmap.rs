//! Document-id and change-id sets, held in roaring's compressed bitmaps.
//! Verus sees a bitmap only through the set of numbers it holds.

use roaring::{RoaringBitmap, RoaringTreemap};
use vstd::prelude::*;

verus! {

#[verifier::external_type_specification]
#[verifier::external_body]
pub struct ExRoaringBitmap(RoaringBitmap);

#[verifier::external_type_specification]
#[verifier::external_body]
pub struct ExRoaringTreemap(RoaringTreemap);

/// The 32-bit numbers a bitmap holds.
pub uninterp spec fn bitmap_ids(b: RoaringBitmap) -> Set<u32>;

/// The 64-bit numbers a treemap holds.
pub uninterp spec fn treemap_ids(t: RoaringTreemap) -> Set<u64>;

/// Relies on RoaringBitmap::new: a bitmap with no containers holds nothing.
pub assume_specification[ RoaringBitmap::new ]() -> (r: RoaringBitmap)
    ensures
        bitmap_ids(r) == Set::<u32>::empty(),
;

/// Relies on RoaringBitmap::insert: adds the value, and tells whether it was absent.
pub assume_specification[ RoaringBitmap::insert ](b: &mut RoaringBitmap, value: u32) -> (r: bool)
    ensures
        bitmap_ids(*final(b)) == bitmap_ids(*old(b)).insert(value),
        r == !bitmap_ids(*old(b)).contains(value),
;

/// Relies on RoaringBitmap::remove: drops the value, and tells whether it was present.
pub assume_specification[ RoaringBitmap::remove ](b: &mut RoaringBitmap, value: u32) -> (r: bool)
    ensures
        bitmap_ids(*final(b)) == bitmap_ids(*old(b)).remove(value),
        r == bitmap_ids(*old(b)).contains(value),
;

/// Relies on RoaringBitmap::contains: membership of one value.
pub assume_specification[ RoaringBitmap::contains ](b: &RoaringBitmap, value: u32) -> (r: bool)
    ensures
        r == bitmap_ids(*b).contains(value),
;

/// Relies on RoaringBitmap::is_empty: `remove` drops emptied containers, so a
/// bitmap has no container exactly when it holds nothing.
pub assume_specification[ RoaringBitmap::is_empty ](b: &RoaringBitmap) -> (r: bool)
    ensures
        r == (bitmap_ids(*b) == Set::<u32>::empty()),
;

/// Relies on RoaringTreemap::new: an empty map of bitmaps holds nothing.
pub assume_specification[ RoaringTreemap::new ]() -> (r: RoaringTreemap)
    ensures
        treemap_ids(r) == Set::<u64>::empty(),
;

/// Relies on RoaringTreemap::insert: adds the value, and tells whether it was absent.
pub assume_specification[ RoaringTreemap::insert ](t: &mut RoaringTreemap, value: u64) -> (r: bool)
    ensures
        treemap_ids(*final(t)) == treemap_ids(*old(t)).insert(value),
        r == !treemap_ids(*old(t)).contains(value),
;

/// Relies on RoaringTreemap::contains: membership of one value.
pub assume_specification[ RoaringTreemap::contains ](t: &RoaringTreemap, value: u64) -> (r: bool)
    ensures
        r == treemap_ids(*t).contains(value),
;

/// Relies on RoaringTreemap::is_empty: true exactly when every inner bitmap
/// is empty, that is when the treemap holds nothing.
pub assume_specification[ RoaringTreemap::is_empty ](t: &RoaringTreemap) -> (r: bool)
    ensures
        r == (treemap_ids(*t) == Set::<u64>::empty()),
;

} // verus!
