//! The guarantees of the paging subsystem, stated and proved over its
//! abstract state.

use vstd::prelude::*;

verus! {

use crate::addr::{
    spec_vpn,
    spec_offset,
    spec_physical_address,
    lemma_vpn_in_range,
    lemma_offset_in_range,
    lemma_physical_address_parts,
    NUM_PAGES,
    NUM_FRAMES,
};
use crate::lru::{lemma_remove_value_distinct, lemma_push_distinct};
use crate::page_table::{
    VmModel,
    lemma_after_assign,
    lemma_after_invalidate,
    lemma_after_access,
};

/// Translation correctness: for every virtual address whose page is
/// valid, the translated physical address carries the address's own low
/// 11 bits as its offset, unchanged.
pub proof fn lemma_translation_offset(s: VmModel, virtual_address: u32)
    requires
        s.wf(),
        s.page_valid(spec_vpn(virtual_address)),
    ensures
        spec_physical_address(s.page_frame(spec_vpn(virtual_address)), spec_offset(virtual_address))
            & 0x7ff == spec_offset(virtual_address),
{
    lemma_vpn_in_range(virtual_address);
    lemma_offset_in_range(virtual_address);
    assert(s.page_frame(spec_vpn(virtual_address)) < NUM_FRAMES);
    lemma_physical_address_parts(
        s.page_frame(spec_vpn(virtual_address)),
        spec_offset(virtual_address),
    );
}

/// Round-trip assignment: after the page of `virtual_address` is
/// assigned the free frame `frame`, every address of that page is valid
/// and translates to a physical address whose frame bits equal `frame`.
pub proof fn lemma_assign_round_trip(s: VmModel, virtual_address: u32, frame: u8)
    requires
        s.wf(),
        !s.page_valid(spec_vpn(virtual_address)),
        s.free.contains(frame),
    ensures
        ({
            let s2 = s.after_assign(spec_vpn(virtual_address), frame);
            &&& s2.wf()
            &&& s2.page_valid(spec_vpn(virtual_address))
            &&& s2.page_frame(spec_vpn(virtual_address)) == frame
            &&& spec_physical_address(
                s2.page_frame(spec_vpn(virtual_address)),
                spec_offset(virtual_address),
            ) >> 11 == frame
        }),
{
    lemma_vpn_in_range(virtual_address);
    lemma_offset_in_range(virtual_address);
    lemma_after_assign(s, spec_vpn(virtual_address), frame);
    assert(frame < s.capacity) by {
        let j = choose|j: int| 0 <= j < s.free.len() && s.free[j] == frame;
        assert(s.free[j] < s.capacity);
    }
    lemma_physical_address_parts(frame, spec_offset(virtual_address));
}

/// Fault-then-success: a translation of a non-resident page fails with a
/// fault naming that page (the translation contract), and resolving the
/// fault leaves a well-formed state in which the page is resident, so a
/// retried translation succeeds.
pub proof fn lemma_fault_then_success(s: VmModel, virtual_address: u32)
    requires
        s.wf(),
        !s.page_valid(spec_vpn(virtual_address)),
        s.capacity > 0,
    ensures
        ({
            let s2 = s.after_fault(spec_vpn(virtual_address));
            &&& s2.wf()
            &&& s2.page_valid(spec_vpn(virtual_address))
        }),
{
    let vpn = spec_vpn(virtual_address);
    lemma_vpn_in_range(virtual_address);
    if s.free.len() > 0 {
        assert(s.free.contains(s.free.last()));
        lemma_after_assign(s, vpn, s.free.last());
    } else {
        let victim = s.lru[0];
        assert(s.lru.contains(victim));
        assert(victim < NUM_PAGES);
        assert(s.page_valid(victim));
        lemma_after_invalidate(s, victim);
        let s1 = s.after_invalidate(victim);
        assert(vpn != victim);
        assert(s1.entries[vpn as int] == s.entries[vpn as int]);
        assert(!s1.page_valid(vpn));
        assert(s1.free.contains(s.page_frame(victim)));
        lemma_after_assign(s1, vpn, s.page_frame(victim));
    }
}

/// Frame exclusivity: no two valid pages reference the same frame.
pub proof fn lemma_frame_exclusivity(s: VmModel, p1: u32, p2: u32)
    requires
        s.wf(),
        p1 < NUM_PAGES,
        p2 < NUM_PAGES,
        p1 != p2,
        s.page_valid(p1),
        s.page_valid(p2),
    ensures
        s.page_frame(p1) != s.page_frame(p2),
{
    assert(s.owner[s.page_frame(p1) as int] == p1);
    assert(s.owner[s.page_frame(p2) as int] == p2);
}

/// Frame-table agreement: each non-free frame maps back to exactly the
/// one valid page that references it.
pub proof fn lemma_frame_table_agreement(s: VmModel, f: u8)
    requires
        s.wf(),
        f < s.capacity,
        !s.free.contains(f),
    ensures
        s.page_valid(s.owner[f as int]),
        s.page_frame(s.owner[f as int]) == f,
        forall|p: u32|
            p < NUM_PAGES && #[trigger] s.page_valid(p) && s.page_frame(p) == f ==> p == s.owner[f
                as int],
{
    assert forall|p: u32|
        p < NUM_PAGES && #[trigger] s.page_valid(p) && s.page_frame(p) == f implies p == s.owner[f
        as int] by {
        assert(s.owner[s.page_frame(p) as int] == p);
    }
}

/// The state after faulting in each page of `pages`, in order.
pub open spec fn fill_all(s: VmModel, pages: Seq<u32>) -> VmModel
    decreases pages.len(),
{
    if pages.len() == 0 {
        s
    } else {
        fill_all(s.after_fault(pages[0]), pages.drop_first())
    }
}

/// Faulting distinct, non-resident pages into a table with room for all
/// of them evicts nothing and appends them to the recency order: the
/// first faulted page becomes the least recently used.
pub proof fn lemma_fill_lru(s: VmModel, pages: Seq<u32>)
    requires
        s.wf(),
        pages.no_duplicates(),
        forall|i: int|
            0 <= i < pages.len() ==> #[trigger] pages[i] < NUM_PAGES && !s.page_valid(pages[i]),
        pages.len() <= s.free.len(),
    ensures
        fill_all(s, pages).wf(),
        fill_all(s, pages).lru == s.lru + pages,
        fill_all(s, pages).free.len() == s.free.len() - pages.len(),
        fill_all(s, pages).capacity == s.capacity,
    decreases pages.len(),
{
    if pages.len() == 0 {
        assert(s.lru + pages =~= s.lru);
    } else {
        let p0 = pages[0];
        let f = s.free.last();
        assert(s.free.contains(f));
        lemma_after_assign(s, p0, f);
        let s1 = s.after_fault(p0);
        assert(s1 == s.after_assign(p0, f));
        let rest = pages.drop_first();
        assert(rest.no_duplicates()) by {
            assert forall|i: int, j: int|
                0 <= i < rest.len() && 0 <= j < rest.len() && i != j implies rest[i] != rest[j] by {
                assert(rest[i] == pages[i + 1]);
                assert(rest[j] == pages[j + 1]);
            }
        }
        assert forall|i: int|
            0 <= i < rest.len() implies #[trigger] rest[i] < NUM_PAGES && !s1.page_valid(
            rest[i]) by {
            assert(rest[i] == pages[i + 1]);
            assert(pages[i + 1] != p0);
            assert(s1.entries[rest[i] as int] == s.entries[rest[i] as int]);
        }
        lemma_fill_lru(s1, rest);
        assert(fill_all(s, pages) == fill_all(s1, rest));
        assert(s1.lru + rest =~= s.lru + pages) by {
            assert(s1.lru == s.lru.push(p0));
            assert forall|i: int| 0 <= i < s.lru.len() + pages.len() implies (s1.lru + rest)[i] == (
            s.lru + pages)[i] by {
                if i < s.lru.len() {
                } else if i == s.lru.len() {
                    assert((s1.lru + rest)[i] == s1.lru[i]);
                    assert((s.lru + pages)[i] == pages[0]);
                } else {
                    assert((s1.lru + rest)[i] == rest[i - s.lru.len() - 1]);
                    assert((s.lru + pages)[i] == pages[i - s.lru.len()]);
                    assert(rest[i - s.lru.len() - 1] == pages[i - s.lru.len()]);
                }
            }
        }
    }
}

/// Accessing the page already in the most-recently-used position leaves
/// the state unchanged: the retried translation after a resolved fault
/// does not disturb the recency order.
pub proof fn lemma_access_most_recent_identity(s: VmModel, vpn: u32)
    requires
        s.wf(),
        s.lru.len() > 0,
        s.lru.last() == vpn,
    ensures
        s.after_access(vpn) == s,
{
    let n = s.lru.len();
    assert(s.lru.contains(vpn));
    lemma_remove_value_distinct(s.lru, vpn);
    s.lru.index_of_first_ensures(vpn);
    let fi = s.lru.index_of_first(vpn).unwrap();
    assert(fi == n - 1) by {
        if fi < n - 1 {
            assert(s.lru[fi] == s.lru[n - 1]);
        }
    }
    assert(s.lru.remove_value(vpn).push(vpn) =~= s.lru);
    assert(s.after_access(vpn) =~= s);
}

/// LRU correctness: fill an empty table to its capacity with distinct
/// pages, touch the first page again to refresh it, then fault one more
/// page in. The victim is the second page — the least recently touched —
/// and never the refreshed first page.
pub proof fn lemma_lru_eviction_order(s: VmModel, pages: Seq<u32>, extra: u32)
    requires
        s.wf(),
        s.lru.len() == 0,
        pages.len() == s.capacity as int,
        pages.len() >= 2,
        pages.no_duplicates(),
        forall|i: int|
            0 <= i < pages.len() ==> #[trigger] pages[i] < NUM_PAGES && !s.page_valid(pages[i]),
        extra < NUM_PAGES,
        !pages.contains(extra),
    ensures
        ({
            let s1 = fill_all(s, pages);
            let s2 = s1.after_access(pages[0]);
            let s3 = s2.after_fault(extra);
            &&& s2.lru[0] == pages[1]
            &&& s3.wf()
            &&& !s3.page_valid(pages[1])
            &&& s3.page_valid(pages[0])
            &&& s3.page_valid(extra)
        }),
{
    lemma_fill_lru(s, pages);
    let s1 = fill_all(s, pages);
    assert(s1.lru =~= pages);
    assert(s1.free.len() == 0);
    assert(pages.contains(pages[0]));
    assert(pages.contains(pages[1]));
    assert(s1.lru.contains(pages[0]));
    assert(s1.page_valid(pages[0]));
    lemma_after_access(s1, pages[0]);
    let s2 = s1.after_access(pages[0]);
    lemma_remove_value_distinct(pages, pages[0]);
    lemma_push_distinct(pages.remove_value(pages[0]), pages[0]);
    pages.index_of_first_ensures(pages[0]);
    let fi = pages.index_of_first(pages[0]).unwrap();
    assert(fi == 0);
    assert(pages.remove_value(pages[0]) =~= pages.drop_first());
    assert(s2.lru == pages.remove_value(pages[0]).push(pages[0]));
    assert(s2.lru[0] == pages.drop_first()[0]);
    assert(s2.lru[0] == pages[1]);
    assert(s2.free.len() == 0);
    assert(extra != pages[0]);
    assert(extra != pages[1]);
    assert(!s2.lru.contains(extra)) by {
        if s2.lru.contains(extra) {
            assert(pages.remove_value(pages[0]).contains(extra) || extra == pages[0]);
            assert(pages.contains(extra));
        }
    }
    assert(!s2.page_valid(extra));
    let victim = s2.lru[0];
    assert(s2.lru.contains(victim));
    assert(s2.page_valid(victim));
    assert(victim < NUM_PAGES);
    lemma_after_invalidate(s2, victim);
    let si = s2.after_invalidate(victim);
    assert(si.entries[extra as int] == s2.entries[extra as int]);
    assert(!si.page_valid(extra));
    assert(si.free.contains(s2.page_frame(victim)));
    lemma_after_assign(si, extra, s2.page_frame(victim));
    let s3 = s2.after_fault(extra);
    assert(s3 == si.after_assign(extra, s2.page_frame(victim)));
    assert(pages[0] != pages[1]);
    assert(s2.page_valid(pages[0])) by {
        assert(s2.lru.contains(pages[0]));
    }
    assert(si.entries[pages[0] as int] == s2.entries[pages[0] as int]);
    assert(s3.entries[pages[0] as int] == si.entries[pages[0] as int]);
    assert(s3.page_valid(pages[0]));
    assert(s3.entries[pages[1] as int] == si.entries[pages[1] as int]);
    assert(!s3.page_valid(pages[1]));
    assert(s3.page_valid(extra));
    assert(s3.wf());
}

} // verus!
