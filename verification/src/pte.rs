//! The page-table entry, packed into one byte.
//!
//! Bit layout: bit 5 is the valid bit, bit 6 the dirty bit, and the
//! lower 5 bits hold the frame number. The frame number is meaningful
//! only while the valid bit is set.

use vstd::prelude::*;

verus! {

/// Whether the entry's valid bit (bit 5) is set.
pub open spec fn spec_pte_valid(entry: u8) -> bool {
    (entry >> 5) & 1 == 1
}

/// Whether the entry's dirty bit (bit 6) is set.
pub open spec fn spec_pte_dirty(entry: u8) -> bool {
    (entry >> 6) & 1 == 1
}

/// The entry's frame number: its lower 5 bits.
pub open spec fn spec_pte_frame(entry: u8) -> u8 {
    entry & 0x1f
}

/// The entry written when a frame is assigned to a page: valid bit set,
/// dirty bit clear, the frame number stored.
pub open spec fn spec_pte_assign(frame: u8) -> u8 {
    0x20 | frame
}

/// The entry after its page is invalidated: only the valid bit cleared.
pub open spec fn spec_pte_invalidate(entry: u8) -> u8 {
    entry & 0xdf
}

/// A freshly assigned entry is valid and clean and stores its frame.
pub proof fn lemma_pte_assign(frame: u8)
    requires
        frame < 32,
    ensures
        spec_pte_valid(spec_pte_assign(frame)),
        !spec_pte_dirty(spec_pte_assign(frame)),
        spec_pte_frame(spec_pte_assign(frame)) == frame,
{
    assert((((0x20u8 | frame) >> 5) & 1 == 1) && !(((0x20u8 | frame) >> 6) & 1 == 1) && (
    (0x20u8 | frame) & 0x1f == frame)) by (bit_vector)
        requires
            frame < 32,
    ;
}

/// Invalidation clears the valid bit and keeps the frame and dirty bits.
pub proof fn lemma_pte_invalidate(entry: u8)
    ensures
        !spec_pte_valid(spec_pte_invalidate(entry)),
        spec_pte_frame(spec_pte_invalidate(entry)) == spec_pte_frame(entry),
        spec_pte_dirty(spec_pte_invalidate(entry)) == spec_pte_dirty(entry),
{
    assert(!(((entry & 0xdfu8) >> 5) & 1 == 1) && ((entry & 0xdfu8) & 0x1f == entry & 0x1f) && ((((
    entry & 0xdfu8) >> 6) & 1 == 1) == (((entry >> 6) & 1) == 1))) by (bit_vector);
}

/// The all-zero entry of a fresh page table is invalid.
pub proof fn lemma_pte_zero_invalid()
    ensures
        !spec_pte_valid(0),
        spec_pte_frame(0) == 0,
{
    assert(!(((0u8 >> 5) & 1) == 1) && 0u8 & 0x1f == 0) by (bit_vector);
}

} // verus!
