//! The page table, the frame table and the fault handler.
//!
//! `PageTable` owns one packed entry per virtual page, the pool of free
//! frames, the reverse frame-to-page mapping, and the recency tracker.
//! Translation fails with a `PageFault` on a non-resident page; the
//! fault handler maps the page into a free frame, or reclaims the frame
//! of the least-recently-used resident page.

use vstd::prelude::*;

verus! {

use crate::addr::{
    spec_vpn,
    spec_offset,
    spec_physical_address,
    virtual_page_number,
    page_offset,
    NUM_PAGES,
    NUM_FRAMES,
};
use crate::pte::{
    spec_pte_valid,
    spec_pte_dirty,
    spec_pte_frame,
    spec_pte_assign,
    spec_pte_invalidate,
    lemma_pte_assign,
    lemma_pte_invalidate,
    lemma_pte_zero_invalid,
};
use crate::lru::{LruTracker, lemma_remove_value_distinct, lemma_push_distinct};

/// The recoverable error of a translation that missed: the page is not
/// resident. The caller resolves it with `handle_page_fault` and retries.
#[derive(Debug, Clone, Copy, PartialEq, Eq, Structural)]
pub struct PageFault {
    pub virtual_page_number: u32,
}

/// The abstract state of the paging subsystem: the packed entries, the
/// recency order (least-recently-used first), the free-frame pool, the
/// frame-to-page mapping, and the frame capacity.
#[verifier::ext_equal]
pub ghost struct VmModel {
    pub entries: Seq<u8>,
    pub lru: Seq<u32>,
    pub free: Seq<u8>,
    pub owner: Seq<u32>,
    pub capacity: u8,
}

impl VmModel {
    /// Whether the page's entry has its valid bit set.
    pub open spec fn page_valid(self, vpn: u32) -> bool {
        spec_pte_valid(self.entries[vpn as int])
    }

    /// The frame number stored in the page's entry.
    pub open spec fn page_frame(self, vpn: u32) -> u8 {
        spec_pte_frame(self.entries[vpn as int])
    }

    /// Whether the page's entry has its dirty bit set.
    pub open spec fn page_dirty(self, vpn: u32) -> bool {
        spec_pte_dirty(self.entries[vpn as int])
    }

    /// The invariant tying the four structures together: one entry per
    /// page; a page is tracked if and only if it is valid; every valid
    /// page owns exactly the frame the frame table maps back to it; a
    /// frame is pooled as free if and only if no valid page uses it.
    pub open spec fn wf(self) -> bool {
        &&& self.entries.len() == NUM_PAGES
        &&& self.capacity <= NUM_FRAMES
        &&& self.owner.len() == self.capacity as int
        &&& self.lru.no_duplicates()
        &&& self.free.no_duplicates()
        &&& self.lru.len() + self.free.len() == self.capacity as int
        &&& forall|i: int| 0 <= i < self.lru.len() ==> #[trigger] self.lru[i] < NUM_PAGES
        &&& forall|i: int| 0 <= i < self.free.len() ==> #[trigger] self.free[i] < self.capacity
        &&& forall|vpn: u32|
            vpn < NUM_PAGES ==> (#[trigger] self.page_valid(vpn) <==> self.lru.contains(vpn))
        &&& forall|vpn: u32|
            vpn < NUM_PAGES && #[trigger] self.page_valid(vpn) ==> {
                &&& self.page_frame(vpn) < self.capacity
                &&& !self.free.contains(self.page_frame(vpn))
                &&& self.owner[self.page_frame(vpn) as int] == vpn
            }
        &&& forall|f: u8|
            f < self.capacity && !(#[trigger] self.free.contains(f)) ==> {
                &&& self.owner[f as int] < NUM_PAGES
                &&& self.page_valid(self.owner[f as int])
                &&& self.page_frame(self.owner[f as int]) == f
            }
    }

    /// The state after mapping the non-resident page `vpn` into the free
    /// frame `f`: entry rewritten valid and clean, the page inserted as
    /// most recently used, the frame claimed from the pool and mapped back.
    pub open spec fn after_assign(self, vpn: u32, f: u8) -> VmModel {
        VmModel {
            entries: self.entries.update(vpn as int, spec_pte_assign(f)),
            lru: self.lru.push(vpn),
            free: self.free.remove_value(f),
            owner: self.owner.update(f as int, vpn),
            capacity: self.capacity,
        }
    }

    /// The state after evicting the resident page `vpn`: only its valid
    /// bit cleared, its recency entry dropped, its frame returned to the
    /// pool. The frame table keeps a stale row until the frame is reused.
    pub open spec fn after_invalidate(self, vpn: u32) -> VmModel {
        VmModel {
            entries: self.entries.update(
                vpn as int,
                spec_pte_invalidate(self.entries[vpn as int]),
            ),
            lru: self.lru.remove_value(vpn),
            free: self.free.push(self.page_frame(vpn)),
            owner: self.owner,
            capacity: self.capacity,
        }
    }

    /// The state after a recorded access of the resident page `vpn`:
    /// moved to the most-recently-used position, nothing else touched.
    pub open spec fn after_access(self, vpn: u32) -> VmModel {
        VmModel {
            entries: self.entries,
            lru: self.lru.remove_value(vpn).push(vpn),
            free: self.free,
            owner: self.owner,
            capacity: self.capacity,
        }
    }

    /// The frame a fault is resolved into: the top of the free pool, or
    /// the frame of the least-recently-used page when the pool is empty.
    pub open spec fn fault_frame(self) -> u8 {
        if self.free.len() > 0 {
            self.free.last()
        } else {
            self.page_frame(self.lru[0])
        }
    }

    /// The state after resolving a fault on the non-resident page `vpn`:
    /// a free frame is claimed directly, or the least-recently-used page
    /// is evicted first and its frame reused.
    pub open spec fn after_fault(self, vpn: u32) -> VmModel {
        if self.free.len() > 0 {
            self.after_assign(vpn, self.free.last())
        } else {
            self.after_invalidate(self.lru[0]).after_assign(vpn, self.page_frame(self.lru[0]))
        }
    }
}

/// Mapping a non-resident page into a free frame preserves the invariant;
/// the page comes out valid, clean, and owning exactly that frame.
pub proof fn lemma_after_assign(s: VmModel, vpn: u32, f: u8)
    requires
        s.wf(),
        vpn < NUM_PAGES,
        !s.page_valid(vpn),
        s.free.contains(f),
    ensures
        s.after_assign(vpn, f).wf(),
        s.after_assign(vpn, f).page_valid(vpn),
        s.after_assign(vpn, f).page_frame(vpn) == f,
        !s.after_assign(vpn, f).page_dirty(vpn),
        s.after_assign(vpn, f).lru == s.lru.push(vpn),
        s.after_assign(vpn, f).free.len() == s.free.len() - 1,
        forall|p: u32|
            p < NUM_PAGES && p != vpn ==> s.after_assign(vpn, f).entries[p as int]
                == s.entries[p as int],
{
    let s2 = s.after_assign(vpn, f);
    assert(f < s.capacity) by {
        let i = choose|i: int| 0 <= i < s.free.len() && s.free[i] == f;
        assert(s.free[i] < s.capacity);
    }
    lemma_pte_assign(f);
    lemma_remove_value_distinct(s.free, f);
    assert(!s.lru.contains(vpn));
    lemma_push_distinct(s.lru, vpn);
    assert(s2.lru == s.lru.push(vpn));
    assert forall|i: int| 0 <= i < s2.free.len() implies #[trigger] s2.free[i] < s2.capacity by {
        assert(s.free.contains(s2.free[i]));
        let j = choose|j: int| 0 <= j < s.free.len() && s.free[j] == s2.free[i];
        assert(s.free[j] < s.capacity);
    }
    assert forall|i: int| 0 <= i < s2.lru.len() implies #[trigger] s2.lru[i] < NUM_PAGES by {
        if i < s.lru.len() {
            assert(s2.lru[i] == s.lru[i]);
        } else {
            assert(s2.lru[i] == vpn);
        }
    }
    assert forall|p: u32|
        p < NUM_PAGES implies (#[trigger] s2.page_valid(p) <==> s2.lru.contains(p)) by {
        assert(s2.lru.contains(p) <==> (s.lru.contains(p) || p == vpn));
        if p != vpn {
            assert(s2.entries[p as int] == s.entries[p as int]);
            assert(s2.page_valid(p) == s.page_valid(p));
            assert(s.page_valid(p) <==> s.lru.contains(p));
        } else {
            assert(s2.page_valid(p));
        }
    }
    assert forall|p: u32|
        p < NUM_PAGES && #[trigger] s2.page_valid(p) implies {
            &&& s2.page_frame(p) < s2.capacity
            &&& !s2.free.contains(s2.page_frame(p))
            &&& s2.owner[s2.page_frame(p) as int] == p
        } by {
        if p == vpn {
            assert(s2.page_frame(p) == f);
            assert(!s2.free.contains(f));
            assert(s2.owner[f as int] == vpn);
        } else {
            assert(s2.entries[p as int] == s.entries[p as int]);
            assert(s.page_valid(p));
            assert(s.page_frame(p) != f);
            assert(s2.owner[s2.page_frame(p) as int] == s.owner[s.page_frame(p) as int]);
        }
    }
    assert forall|g: u8|
        g < s2.capacity && !(#[trigger] s2.free.contains(g)) implies {
            &&& s2.owner[g as int] < NUM_PAGES
            &&& s2.page_valid(s2.owner[g as int])
            &&& s2.page_frame(s2.owner[g as int]) == g
        } by {
        if g == f {
            assert(s2.owner[g as int] == vpn);
        } else {
            assert(s2.free.contains(g) <==> s.free.contains(g));
            assert(!s.free.contains(g));
            let p = s.owner[g as int];
            assert(s.page_valid(p) && s.page_frame(p) == g);
            assert(p != vpn);
            assert(s2.entries[p as int] == s.entries[p as int]);
            assert(s2.owner[g as int] == p);
        }
    }
}

/// Evicting a resident page preserves the invariant; its frame joins the
/// free pool, its dirty bit and stored frame number stay in place.
pub proof fn lemma_after_invalidate(s: VmModel, vpn: u32)
    requires
        s.wf(),
        vpn < NUM_PAGES,
        s.page_valid(vpn),
    ensures
        s.after_invalidate(vpn).wf(),
        !s.after_invalidate(vpn).page_valid(vpn),
        s.after_invalidate(vpn).page_frame(vpn) == s.page_frame(vpn),
        s.after_invalidate(vpn).page_dirty(vpn) == s.page_dirty(vpn),
        s.after_invalidate(vpn).free.contains(s.page_frame(vpn)),
        s.after_invalidate(vpn).free.len() == s.free.len() + 1,
        s.after_invalidate(vpn).lru == s.lru.remove_value(vpn),
        forall|p: u32|
            p < NUM_PAGES && p != vpn ==> s.after_invalidate(vpn).entries[p as int]
                == s.entries[p as int],
{
    let s2 = s.after_invalidate(vpn);
    let fr = s.page_frame(vpn);
    lemma_pte_invalidate(s.entries[vpn as int]);
    lemma_remove_value_distinct(s.lru, vpn);
    assert(!s.free.contains(fr));
    lemma_push_distinct(s.free, fr);
    assert(s.lru.contains(vpn));
    assert(s2.free[s.free.len() as int] == fr);
    assert(s2.free.contains(fr));
    assert(s2.lru == s.lru.remove_value(vpn));
    assert forall|i: int| 0 <= i < s2.lru.len() implies #[trigger] s2.lru[i] < NUM_PAGES by {
        assert(s.lru.contains(s2.lru[i]));
        let j = choose|j: int| 0 <= j < s.lru.len() && s.lru[j] == s2.lru[i];
        assert(s.lru[j] < NUM_PAGES);
    }
    assert forall|i: int| 0 <= i < s2.free.len() implies #[trigger] s2.free[i] < s2.capacity by {
        if i < s.free.len() {
            assert(s2.free[i] == s.free[i]);
        } else {
            assert(s2.free[i] == fr);
        }
    }
    assert forall|p: u32|
        p < NUM_PAGES implies (#[trigger] s2.page_valid(p) <==> s2.lru.contains(p)) by {
        if p != vpn {
            assert(s2.entries[p as int] == s.entries[p as int]);
            assert(s2.page_valid(p) == s.page_valid(p));
            assert(s.page_valid(p) <==> s.lru.contains(p));
            assert(s2.lru.contains(p) <==> s.lru.contains(p));
        } else {
            assert(!s2.page_valid(p));
            assert(!s2.lru.contains(p));
        }
    }
    assert forall|p: u32|
        p < NUM_PAGES && #[trigger] s2.page_valid(p) implies {
            &&& s2.page_frame(p) < s2.capacity
            &&& !s2.free.contains(s2.page_frame(p))
            &&& s2.owner[s2.page_frame(p) as int] == p
        } by {
        assert(p != vpn);
        assert(s2.entries[p as int] == s.entries[p as int]);
        assert(s.page_valid(p));
        assert(s.page_frame(p) != fr) by {
            if s.page_frame(p) == fr {
                assert(s.owner[fr as int] == p);
                assert(s.owner[fr as int] == vpn);
            }
        }
    }
    assert forall|g: u8|
        g < s2.capacity && !(#[trigger] s2.free.contains(g)) implies {
            &&& s2.owner[g as int] < NUM_PAGES
            &&& s2.page_valid(s2.owner[g as int])
            &&& s2.page_frame(s2.owner[g as int]) == g
        } by {
        assert(!s.free.contains(g));
        assert(g != fr);
        let p = s.owner[g as int];
        assert(s.page_valid(p) && s.page_frame(p) == g);
        assert(p != vpn);
        assert(s2.entries[p as int] == s.entries[p as int]);
    }
}

/// Recording an access of a resident page preserves the invariant and
/// changes nothing but the recency order.
pub proof fn lemma_after_access(s: VmModel, vpn: u32)
    requires
        s.wf(),
        vpn < NUM_PAGES,
        s.page_valid(vpn),
    ensures
        s.after_access(vpn).wf(),
        s.after_access(vpn).entries == s.entries,
        s.after_access(vpn).free == s.free,
        s.after_access(vpn).owner == s.owner,
        s.after_access(vpn).lru == s.lru.remove_value(vpn).push(vpn),
        forall|p: u32| p < NUM_PAGES ==> s.after_access(vpn).page_valid(p) == s.page_valid(p),
{
    let s2 = s.after_access(vpn);
    lemma_remove_value_distinct(s.lru, vpn);
    lemma_push_distinct(s.lru.remove_value(vpn), vpn);
    assert(s.lru.contains(vpn));
    assert(s2.lru == s.lru.remove_value(vpn).push(vpn));
    assert forall|i: int| 0 <= i < s2.lru.len() implies #[trigger] s2.lru[i] < NUM_PAGES by {
        if i < s.lru.remove_value(vpn).len() {
            assert(s2.lru[i] == s.lru.remove_value(vpn)[i]);
            assert(s.lru.contains(s.lru.remove_value(vpn)[i]));
            let j = choose|j: int| 0 <= j < s.lru.len() && s.lru[j] == s2.lru[i];
            assert(s.lru[j] < NUM_PAGES);
        } else {
            assert(s2.lru[i] == vpn);
        }
    }
    assert forall|p: u32|
        p < NUM_PAGES implies (#[trigger] s2.page_valid(p) <==> s2.lru.contains(p)) by {
        assert(s2.page_valid(p) == s.page_valid(p));
        assert(s.page_valid(p) <==> s.lru.contains(p));
        assert(s2.lru.contains(p) <==> (s.lru.remove_value(vpn).contains(p) || p == vpn));
        if p != vpn {
            assert(s.lru.remove_value(vpn).contains(p) <==> s.lru.contains(p));
        } else {
            assert(s.lru.contains(p));
        }
    }
    assert forall|p: u32|
        p < NUM_PAGES && #[trigger] s2.page_valid(p) implies {
            &&& s2.page_frame(p) < s2.capacity
            &&& !s2.free.contains(s2.page_frame(p))
            &&& s2.owner[s2.page_frame(p) as int] == p
        } by {
        assert(s.page_valid(p));
        assert(s2.page_frame(p) == s.page_frame(p));
    }
    assert forall|g: u8|
        g < s2.capacity && !(#[trigger] s2.free.contains(g)) implies {
            &&& s2.owner[g as int] < NUM_PAGES
            &&& s2.page_valid(s2.owner[g as int])
            &&& s2.page_frame(s2.owner[g as int]) == g
        } by {
        assert(!s.free.contains(g));
        assert(s.page_valid(s.owner[g as int]));
    }
}

/// The page table with its frame bookkeeping: one packed entry per
/// virtual page, the recency tracker, the pool of free frame numbers
/// (the last element is handed out next), and the frame-to-page mapping.
pub struct PageTable {
    entries: Vec<u8>,
    tracker: LruTracker,
    free_frames: Vec<u8>,
    frame_owner: Vec<u32>,
    capacity: u8,
}

impl View for PageTable {
    type V = VmModel;

    closed spec fn view(&self) -> VmModel {
        VmModel {
            entries: self.entries@,
            lru: self.tracker@,
            free: self.free_frames@,
            owner: self.frame_owner@,
            capacity: self.capacity,
        }
    }
}

/// Finds the index of a frame number in the free pool.
fn frame_position(frames: &Vec<u8>, frame: u8) -> (r: Option<usize>)
    ensures
        match r {
            Some(i) => i < frames@.len() && frames@[i as int] == frame && (forall|j: int|
                0 <= j < i ==> frames@[j] != frame),
            None => !frames@.contains(frame),
        },
{
    let mut i: usize = 0;
    while i < frames.len()
        invariant
            i <= frames@.len(),
            forall|j: int| 0 <= j < i ==> frames@[j] != frame,
        decreases frames@.len() - i,
    {
        if frames[i] == frame {
            return Some(i);
        }
        i = i + 1;
    }
    None
}

impl PageTable {
    /// Creates an empty page table over the full pool of 32 frames:
    /// every entry invalid, every frame free.
    pub fn new() -> (pt: PageTable)
        ensures
            pt@.wf(),
            pt@.capacity == NUM_FRAMES,
            pt@.lru == Seq::<u32>::empty(),
            pt@.free == Seq::new(NUM_FRAMES as nat, |i: int| (NUM_FRAMES - 1 - i) as u8),
            pt@.entries == Seq::new(NUM_PAGES as nat, |i: int| 0u8),
            forall|vpn: u32| vpn < NUM_PAGES ==> !pt@.page_valid(vpn),
    {
        Self::with_capacity(NUM_FRAMES)
    }

    /// Creates an empty page table over a pool of `capacity` frames.
    /// Frames are handed out in increasing order, frame 0 first.
    pub fn with_capacity(capacity: u8) -> (pt: PageTable)
        requires
            capacity <= NUM_FRAMES,
        ensures
            pt@.wf(),
            pt@.capacity == capacity,
            pt@.lru == Seq::<u32>::empty(),
            pt@.free == Seq::new(capacity as nat, |i: int| (capacity - 1 - i) as u8),
            pt@.entries == Seq::new(NUM_PAGES as nat, |i: int| 0u8),
            forall|vpn: u32| vpn < NUM_PAGES ==> !pt@.page_valid(vpn),
    {
        let mut entries: Vec<u8> = Vec::new();
        while entries.len() < 0x200000
            invariant
                entries@.len() <= 0x200000,
                forall|i: int| 0 <= i < entries@.len() ==> entries@[i] == 0,
            decreases 0x200000 - entries@.len(),
        {
            entries.push(0);
        }
        let mut free_frames: Vec<u8> = Vec::new();
        let mut next: u8 = capacity;
        while next > 0
            invariant
                next <= capacity,
                free_frames@.len() == capacity - next,
                forall|i: int|
                    0 <= i < free_frames@.len() ==> #[trigger] free_frames@[i] == capacity - 1 - i,
            decreases next,
        {
            next = next - 1;
            free_frames.push(next);
        }
        let mut frame_owner: Vec<u32> = Vec::new();
        while frame_owner.len() < capacity as usize
            invariant
                frame_owner@.len() <= capacity as int,
            decreases capacity as int - frame_owner@.len(),
        {
            frame_owner.push(0);
        }
        let pt = PageTable { entries, tracker: LruTracker::new(), free_frames, frame_owner, capacity };
        proof {
            lemma_pte_zero_invalid();
            assert(pt@.entries =~= Seq::new(NUM_PAGES as nat, |i: int| 0u8));
            assert(pt@.free =~= Seq::new(capacity as nat, |i: int| (capacity - 1 - i) as u8));
            assert(pt@.free.no_duplicates());
            assert forall|f: u8| f < pt@.capacity implies pt@.free.contains(f) by {
                assert(pt@.free[capacity - 1 - f] == f);
            }
            assert(pt@.wf());
        }
        pt
    }

    /// Whether the address's page is resident: its entry's valid bit.
    pub fn is_valid(&self, virtual_address: u32) -> (valid: bool)
        requires
            self@.wf(),
        ensures
            valid == self@.page_valid(spec_vpn(virtual_address)),
    {
        let vpn = virtual_page_number(virtual_address);
        let entry = self.entries[vpn as usize];
        (entry >> 5) & 1 == 1
    }

    /// Evicts the resident page: clears its valid bit (the frame number
    /// stays in the byte but is stale), drops its recency entry, and
    /// returns its frame to the free pool.
    pub fn invalidate(&mut self, virtual_page_number: u32)
        requires
            old(self)@.wf(),
            virtual_page_number < NUM_PAGES,
            old(self)@.page_valid(virtual_page_number),
        ensures
            final(self)@.wf(),
            final(self)@ == old(self)@.after_invalidate(virtual_page_number),
            !final(self)@.page_valid(virtual_page_number),
            final(self)@.free.contains(old(self)@.page_frame(virtual_page_number)),
    {
        proof {
            lemma_after_invalidate(old(self)@, virtual_page_number);
        }
        let entry = self.entries[virtual_page_number as usize];
        let frame: u8 = entry & 0x1f;
        self.entries[virtual_page_number as usize] = entry & 0xdf;
        self.tracker.remove(virtual_page_number);
        self.free_frames.push(frame);
        proof {
            assert(self@ =~= old(self)@.after_invalidate(virtual_page_number));
        }
    }
}

/// Translates a virtual address. On a hit, the physical address combines
/// the page's frame with the address's offset, and the access is recorded
/// as most recent. On a miss, nothing changes and the fault names the page.
pub fn get_physical_address(page_table: &mut PageTable, virtual_address: u32) -> (result: Result<
    u16,
    PageFault,
>)
    requires
        old(page_table)@.wf(),
    ensures
        final(page_table)@.wf(),
        old(page_table)@.page_valid(spec_vpn(virtual_address)) ==> {
            &&& result == Ok::<u16, PageFault>(
                spec_physical_address(
                    old(page_table)@.page_frame(spec_vpn(virtual_address)),
                    spec_offset(virtual_address),
                ),
            )
            &&& final(page_table)@ == old(page_table)@.after_access(spec_vpn(virtual_address))
        },
        !old(page_table)@.page_valid(spec_vpn(virtual_address)) ==> {
            &&& result == Err::<u16, PageFault>(
                PageFault { virtual_page_number: spec_vpn(virtual_address) },
            )
            &&& *final(page_table) == *old(page_table)
        },
{
    let vpn = virtual_page_number(virtual_address);
    if !page_table.is_valid(virtual_address) {
        return Err(PageFault { virtual_page_number: vpn });
    }
    proof {
        lemma_after_access(old(page_table)@, vpn);
    }
    let offset = page_offset(virtual_address);
    let entry = page_table.entries[vpn as usize];
    let frame: u8 = entry & 0x1f;
    page_table.tracker.record_access(vpn);
    proof {
        assert(page_table@ =~= old(page_table)@.after_access(vpn));
    }
    Ok(((frame as u16) << 11) | (offset as u16))
}

/// Maps a non-resident page into a free frame: writes a valid, clean
/// entry holding the frame, claims the frame from the pool, records the
/// page as owner of the frame and as most recently used.
pub fn assign_page(page_table: &mut PageTable, virtual_page_number: u32, frame_number: u8)
    requires
        old(page_table)@.wf(),
        virtual_page_number < NUM_PAGES,
        !old(page_table)@.page_valid(virtual_page_number),
        old(page_table)@.free.contains(frame_number),
    ensures
        final(page_table)@.wf(),
        final(page_table)@ == old(page_table)@.after_assign(virtual_page_number, frame_number),
        final(page_table)@.page_valid(virtual_page_number),
        final(page_table)@.page_frame(virtual_page_number) == frame_number,
        !final(page_table)@.page_dirty(virtual_page_number),
{
    proof {
        lemma_after_assign(old(page_table)@, virtual_page_number, frame_number);
        assert(frame_number < old(page_table)@.capacity) by {
            let j = choose|j: int|
                0 <= j < old(page_table)@.free.len() && old(page_table)@.free[j] == frame_number;
            assert(old(page_table)@.free[j] < old(page_table)@.capacity);
        }
    }
    match frame_position(&page_table.free_frames, frame_number) {
        Some(i) => {
            proof {
                let s = old(page_table)@.free;
                s.index_of_first_ensures(frame_number);
                let fi = s.index_of_first(frame_number).unwrap();
                assert(s[i as int] == frame_number);
                assert(fi == i as int);
            }
            page_table.free_frames.remove(i);
            page_table.entries[virtual_page_number as usize] = 0x20 | frame_number;
            page_table.frame_owner[frame_number as usize] = virtual_page_number;
            page_table.tracker.record_access(virtual_page_number);
            proof {
                let s = old(page_table)@;
                lemma_remove_value_distinct(s.lru, virtual_page_number);
                assert(!s.lru.contains(virtual_page_number));
                assert(s.lru.remove_value(virtual_page_number) == s.lru);
                assert(page_table@ =~= s.after_assign(virtual_page_number, frame_number));
            }
        },
        None => {
            proof {
                assert(false);
            }
        },
    }
}

/// Resolves a page fault: hands the faulting page a free frame, or, when
/// none is left, evicts the least-recently-used page and reuses its
/// frame. Returns the frame the page now occupies; a retried translation
/// is then guaranteed to succeed.
pub fn handle_page_fault(page_table: &mut PageTable, virtual_page_number: u32) -> (frame: u8)
    requires
        old(page_table)@.wf(),
        virtual_page_number < NUM_PAGES,
        !old(page_table)@.page_valid(virtual_page_number),
        old(page_table)@.capacity > 0,
    ensures
        final(page_table)@.wf(),
        frame == old(page_table)@.fault_frame(),
        final(page_table)@ == old(page_table)@.after_fault(virtual_page_number),
        final(page_table)@.page_valid(virtual_page_number),
        final(page_table)@.page_frame(virtual_page_number) == frame,
{
    let n = page_table.free_frames.len();
    if n > 0 {
        let frame = page_table.free_frames[n - 1];
        proof {
            assert(old(page_table)@.free.contains(frame));
        }
        assign_page(page_table, virtual_page_number, frame);
        frame
    } else {
        let victim = match page_table.tracker.evict_candidate() {
            Some(v) => v,
            None => {
                proof {
                    assert(false);
                }
                0
            },
        };
        proof {
            assert(old(page_table)@.lru[0] == victim);
            assert(old(page_table)@.lru.contains(victim));
            assert(old(page_table)@.page_valid(victim));
        }
        let entry = page_table.entries[victim as usize];
        let frame: u8 = entry & 0x1f;
        page_table.invalidate(victim);
        proof {
            assert(virtual_page_number != victim);
        }
        assign_page(page_table, virtual_page_number, frame);
        proof {
            assert(page_table@ =~= old(page_table)@.after_fault(virtual_page_number));
        }
        frame
    }
}

} // verus!
