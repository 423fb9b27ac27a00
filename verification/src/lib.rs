//! A software model of a paged virtual-memory subsystem.
//!
//! A 32-bit virtual address (21 page bits over an 11-bit offset) is
//! translated through a page table into a 16-bit physical address
//! (5 frame bits over the same offset). When a translation misses, a
//! fault handler maps the faulting page into a free frame, or reclaims
//! the frame of the least-recently-used resident page.

pub mod addr;
pub mod laws;
pub mod lru;
pub mod memory;
pub mod page_table;
pub mod pte;
