//! Decomposition of virtual addresses and composition of physical ones.
//!
//! A virtual address has 32 bits: the upper 21 bits are the virtual page
//! number, the lower 11 bits the offset within the page. A physical
//! address has 16 bits: a 5-bit frame number over the same 11-bit offset.

use vstd::prelude::*;

verus! {

/// Number of virtual pages: 2^32 bytes of virtual memory in 2^11-byte pages.
pub const NUM_PAGES: u32 = 0x200000;

/// Number of physical frames: 2^16 bytes of physical memory in 2^11-byte frames.
pub const NUM_FRAMES: u8 = 32;

/// The virtual page number of an address: its upper 21 bits.
pub open spec fn spec_vpn(virtual_address: u32) -> u32 {
    virtual_address >> 11
}

/// The in-page offset of an address: its lower 11 bits.
pub open spec fn spec_offset(virtual_address: u32) -> u32 {
    virtual_address & 0x7ff
}

/// A physical address: the frame number shifted over an 11-bit offset.
pub open spec fn spec_physical_address(frame: u8, offset: u32) -> u16 {
    ((frame as u16) << 11) | (offset as u16)
}

/// A virtual page number always fits the page table's index range.
pub proof fn lemma_vpn_in_range(virtual_address: u32)
    ensures
        spec_vpn(virtual_address) < NUM_PAGES,
{
    assert(virtual_address >> 11 < 0x200000u32) by (bit_vector);
}

/// An offset never exceeds its 11 bits.
pub proof fn lemma_offset_in_range(virtual_address: u32)
    ensures
        spec_offset(virtual_address) < 0x800,
{
    assert(virtual_address & 0x7ff < 0x800u32) by (bit_vector);
}

/// Composing a physical address keeps the offset in its lower 11 bits
/// and the frame in the bits above them.
pub proof fn lemma_physical_address_parts(frame: u8, offset: u32)
    requires
        frame < NUM_FRAMES,
        offset < 0x800,
    ensures
        spec_physical_address(frame, offset) & 0x7ff == offset,
        spec_physical_address(frame, offset) >> 11 == frame,
{
    assert((((frame as u16) << 11) | (offset as u16)) & 0x7ff == offset
        && (((frame as u16) << 11) | (offset as u16)) >> 11 == frame) by (bit_vector)
        requires
            frame < 32,
            offset < 0x800,
    ;
}

/// Extracts the virtual page number from a virtual address.
pub fn virtual_page_number(virtual_address: u32) -> (vpn: u32)
    ensures
        vpn == spec_vpn(virtual_address),
        vpn < NUM_PAGES,
{
    proof {
        lemma_vpn_in_range(virtual_address);
    }
    virtual_address >> 11
}

/// Extracts the in-page offset from a virtual address.
pub fn page_offset(virtual_address: u32) -> (offset: u32)
    ensures
        offset == spec_offset(virtual_address),
        offset < 0x800,
{
    proof {
        lemma_offset_in_range(virtual_address);
    }
    virtual_address & 0x7ff
}

} // verus!
