//! Trusted boundary to the `bloomfilter` crate.
//!
//! A `Bloom` value is opaque here; its contents are modelled by the set of
//! keys recorded since it was created or last cleared. The crate documents
//! `check` as "there can be false positives, but no false negatives", which
//! is exactly what the wrappers state: membership of a recorded key forces a
//! positive answer, while nothing is promised about unrecorded keys.

use vstd::prelude::*;

verus! {

#[verifier::external_type_specification]
#[verifier::external_body]
#[verifier::reject_recursive_types(T)]
pub struct ExBloom<T: ?Sized>(bloomfilter::Bloom<T>);

/// The set of keys recorded in the filter since creation or the last clear.
pub uninterp spec fn bloom_items(b: bloomfilter::Bloom<u64>) -> Set<u64>;

/// Relies on `Bloom::new`: allocates a zeroed bitmap of `bitmap_size` bytes,
/// so no key is recorded yet. The crate asserts both arguments positive and
/// multiplies the byte count by eight, which the bounds keep from
/// overflowing.
#[verifier::external_body]
pub(crate) fn bloom_new(bitmap_size: usize, items_count: usize) -> (r: bloomfilter::Bloom<u64>)
    requires
        bitmap_size >= 1,
        items_count >= 1,
        bitmap_size <= 0x1000_0000_0000_0000,
    ensures
        bloom_items(r) == Set::<u64>::empty(),
{
    bloomfilter::Bloom::new(bitmap_size, items_count)
}

/// Relies on `Bloom::check`: no false negatives, so a recorded key always
/// answers true; an unrecorded key may answer either way.
#[verifier::external_body]
pub(crate) fn bloom_check(b: &bloomfilter::Bloom<u64>, item: &u64) -> (r: bool)
    ensures
        bloom_items(*b).contains(*item) ==> r,
{
    b.check(item)
}

/// Relies on `Bloom::set`: records the presence of the key by setting its
/// hash bits, which only ever adds to what the filter reports as present.
#[verifier::external_body]
pub(crate) fn bloom_set(b: &mut bloomfilter::Bloom<u64>, item: &u64)
    ensures
        bloom_items(*final(b)) == bloom_items(*old(b)).insert(*item),
{
    b.set(item)
}

/// Relies on `Bloom::clear`: resets every bit, removing all recorded keys.
#[verifier::external_body]
pub(crate) fn bloom_clear(b: &mut bloomfilter::Bloom<u64>)
    ensures
        bloom_items(*final(b)) == Set::<u64>::empty(),
{
    b.clear()
}

} // verus!
