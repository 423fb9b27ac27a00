use paged_vm::lru::LruTracker;
use paged_vm::memory::Memory;
use paged_vm::page_table::{assign_page, get_physical_address, handle_page_fault, PageTable};

/// Virtual address of page `vpn` with in-page `offset`.
fn va(vpn: u32, offset: u32) -> u32 {
    (vpn << 11) | offset
}

/// Translates, resolving at most one fault, as a caller is meant to.
fn access(pt: &mut PageTable, address: u32) -> u16 {
    match get_physical_address(pt, address) {
        Ok(pa) => pa,
        Err(fault) => {
            handle_page_fault(pt, fault.virtual_page_number);
            get_physical_address(pt, address).unwrap()
        }
    }
}

#[test]
fn memory_store_load() {
    let mut mem = Memory::new();
    assert_eq!(mem.load(0x1234), 0);
    mem.store(0x1234, 42);
    assert_eq!(mem.load(0x1234), 42);
    assert_eq!(mem.load(0x1233), 0);
    assert_eq!(mem.load(0xffff), 0);
}

#[test]
fn translation_keeps_offset() {
    let mut pt = PageTable::with_capacity(2);
    handle_page_fault(&mut pt, 5);
    let pa = get_physical_address(&mut pt, va(5, 0x7ab)).unwrap();
    assert_eq!(pa & 0x7ff, 0x7ab);
    let pa2 = get_physical_address(&mut pt, va(5, 0)).unwrap();
    assert_eq!(pa2 & 0x7ff, 0);
    let pa3 = get_physical_address(&mut pt, va(5, 0x7ff)).unwrap();
    assert_eq!(pa3 & 0x7ff, 0x7ff);
}

#[test]
fn assign_round_trip() {
    let mut pt = PageTable::new();
    assign_page(&mut pt, 7, 4);
    assert!(pt.is_valid(va(7, 0)));
    assert!(pt.is_valid(va(7, 123)));
    assert!(pt.is_valid(va(7, 0x7ff)));
    let pa = get_physical_address(&mut pt, va(7, 123)).unwrap();
    assert_eq!(pa >> 11, 4);
    assert_eq!(pa & 0x7ff, 123);
}

#[test]
fn fault_then_success() {
    let mut pt = PageTable::new();
    let address = va(9, 17);
    let fault = get_physical_address(&mut pt, address).unwrap_err();
    assert_eq!(fault.virtual_page_number, 9);
    handle_page_fault(&mut pt, fault.virtual_page_number);
    assert!(get_physical_address(&mut pt, address).is_ok());
}

#[test]
fn lru_eviction_order() {
    let mut pt = PageTable::with_capacity(3);
    access(&mut pt, va(1, 0));
    access(&mut pt, va(2, 0));
    access(&mut pt, va(3, 0));
    // Refresh page 1: page 2 becomes the least recently used.
    access(&mut pt, va(1, 0));
    // Page 4 faults in and must evict page 2, never page 1.
    access(&mut pt, va(4, 0));
    assert!(pt.is_valid(va(1, 0)));
    assert!(!pt.is_valid(va(2, 0)));
    assert!(pt.is_valid(va(3, 0)));
    assert!(pt.is_valid(va(4, 0)));
}

#[test]
fn example_scenario() {
    let mut pt = PageTable::with_capacity(2);
    let a = 100;
    let b = 200;
    let c = 300;
    // A faults in, taking frame 0.
    let pa_a = access(&mut pt, va(a, 1));
    assert_eq!(pa_a >> 11, 0);
    // B faults in, taking frame 1.
    let pa_b = access(&mut pt, va(b, 2));
    assert_eq!(pa_b >> 11, 1);
    // C faults, evicts A (the least recently used), and takes frame 0.
    let pa_c = access(&mut pt, va(c, 3));
    assert_eq!(pa_c >> 11, 0);
    assert!(!pt.is_valid(va(a, 0)));
    // B is still resident: a hit.
    assert!(pt.is_valid(va(b, 0)));
    let pa_b2 = get_physical_address(&mut pt, va(b, 4)).unwrap();
    assert_eq!(pa_b2 >> 11, 1);
    // A faults again and evicts C.
    let pa_a2 = access(&mut pt, va(a, 5));
    assert_eq!(pa_a2 >> 11, 0);
    assert!(!pt.is_valid(va(c, 0)));
    assert!(pt.is_valid(va(b, 0)));
}

#[test]
fn frame_exclusivity() {
    let mut pt = PageTable::with_capacity(2);
    let pa1 = access(&mut pt, va(10, 0));
    let pa2 = access(&mut pt, va(11, 0));
    assert_ne!(pa1 >> 11, pa2 >> 11);
    // After an eviction the freed frame is reused, still exclusively.
    let pa3 = access(&mut pt, va(12, 0));
    let pa4 = access(&mut pt, va(13, 0));
    assert_ne!(pa3 >> 11, pa4 >> 11);
}

#[test]
fn translate_rejects_invalid() {
    let mut pt = PageTable::new();
    let fault = get_physical_address(&mut pt, va(0, 0)).unwrap_err();
    assert_eq!(fault.virtual_page_number, 0);
    let fault = get_physical_address(&mut pt, 0xffff_ffff).unwrap_err();
    assert_eq!(fault.virtual_page_number, 0x1f_ffff);
}

#[test]
fn invalidate_makes_page_fault() {
    let mut pt = PageTable::new();
    assign_page(&mut pt, 42, 0);
    assert!(pt.is_valid(va(42, 0)));
    pt.invalidate(42);
    assert!(!pt.is_valid(va(42, 0)));
    let fault = get_physical_address(&mut pt, va(42, 7)).unwrap_err();
    assert_eq!(fault.virtual_page_number, 42);
}

#[test]
fn tracker_orders_by_recency() {
    let mut t = LruTracker::new();
    assert_eq!(t.evict_candidate(), None);
    t.record_access(1);
    t.record_access(2);
    t.record_access(3);
    assert_eq!(t.evict_candidate(), Some(1));
    // Touching page 1 again moves it to the most-recently-used end.
    t.record_access(1);
    assert_eq!(t.evict_candidate(), Some(2));
    t.remove(2);
    assert_eq!(t.evict_candidate(), Some(3));
    t.remove(3);
    t.remove(1);
    assert_eq!(t.evict_candidate(), None);
}

#[test]
fn free_frames_are_used_before_eviction() {
    let mut pt = PageTable::with_capacity(3);
    access(&mut pt, va(1, 0));
    access(&mut pt, va(2, 0));
    // A third frame is still free: no resident page may be evicted.
    access(&mut pt, va(3, 0));
    assert!(pt.is_valid(va(1, 0)));
    assert!(pt.is_valid(va(2, 0)));
    assert!(pt.is_valid(va(3, 0)));
}

#[test]
fn retry_after_fault_hits_same_frame() {
    let mut pt = PageTable::with_capacity(1);
    let frame = handle_page_fault(&mut pt, 8);
    let pa = get_physical_address(&mut pt, va(8, 3)).unwrap();
    assert_eq!(pa >> 11, frame as u16);
    // The single frame is reclaimed for the next faulting page.
    let frame2 = handle_page_fault(&mut pt, 9);
    assert_eq!(frame, frame2);
    assert!(!pt.is_valid(va(8, 0)));
    assert!(pt.is_valid(va(9, 0)));
}
