//! The replacement tracker: page-access order, least-recently-used first.
//!
//! The tracker holds each resident page exactly once, ordered by the
//! time of its last access. Index 0 is the eviction candidate; the last
//! index is the most recently used page.

use vstd::prelude::*;

verus! {

/// Removing a value from a duplicate-free sequence removes exactly its
/// one occurrence and keeps everything else, in order.
pub proof fn lemma_remove_value_distinct<T>(s: Seq<T>, v: T)
    requires
        s.no_duplicates(),
    ensures
        s.remove_value(v).no_duplicates(),
        !s.remove_value(v).contains(v),
        forall|x: T| x != v ==> (s.remove_value(v).contains(x) <==> s.contains(x)),
        forall|j: int| 0 <= j < s.remove_value(v).len() ==> s.contains(#[trigger] s.remove_value(v)[j]),
        s.contains(v) ==> s.remove_value(v).len() == s.len() - 1,
        !s.contains(v) ==> s.remove_value(v) == s,
{
    s.index_of_first_ensures(v);
    if s.contains(v) {
        let i = s.index_of_first(v).unwrap();
        let r = s.remove(i);
        s.remove_ensures(i);
        assert forall|j: int, k: int|
            0 <= j < r.len() && 0 <= k < r.len() && j != k implies r[j] != r[k] by {
            let j2: int = if j < i {
                j
            } else {
                j + 1
            };
            let k2: int = if k < i {
                k
            } else {
                k + 1
            };
            assert(r[j] == s[j2]);
            assert(r[k] == s[k2]);
            assert(s[j2] != s[k2]);
        }
        assert(!r.contains(v)) by {
            if r.contains(v) {
                let j = choose|j: int| 0 <= j < r.len() && r[j] == v;
                let j2: int = if j < i {
                    j
                } else {
                    j + 1
                };
                assert(r[j] == s[j2]);
                assert(s[j2] != s[i]);
            }
        }
        assert forall|j: int| 0 <= j < r.len() implies s.contains(#[trigger] r[j]) by {
            let j2: int = if j < i {
                j
            } else {
                j + 1
            };
            assert(r[j] == s[j2]);
            assert(s.contains(s[j2]));
        }
        assert forall|x: T| x != v implies (r.contains(x) <==> s.contains(x)) by {
            if r.contains(x) {
                let j = choose|j: int| 0 <= j < r.len() && r[j] == x;
                let j2: int = if j < i {
                    j
                } else {
                    j + 1
                };
                assert(r[j] == s[j2]);
                assert(s.contains(x));
            }
            if s.contains(x) {
                let j2 = choose|j: int| 0 <= j < s.len() && s[j] == x;
                assert(j2 != i);
                let j: int = if j2 < i {
                    j2
                } else {
                    j2 - 1
                };
                assert(r[j] == s[j2]);
                assert(r.contains(x));
            }
        }
    }
}

/// Appending a value that a duplicate-free sequence does not hold keeps it
/// duplicate-free; membership grows by exactly that value.
pub proof fn lemma_push_distinct<T>(s: Seq<T>, v: T)
    requires
        s.no_duplicates(),
        !s.contains(v),
    ensures
        s.push(v).no_duplicates(),
        forall|x: T| s.push(v).contains(x) <==> (s.contains(x) || x == v),
{
    let r = s.push(v);
    assert forall|j: int, k: int|
        0 <= j < r.len() && 0 <= k < r.len() && j != k implies r[j] != r[k] by {
        if j < s.len() && k < s.len() {
            assert(s[j] != s[k]);
        } else if j < s.len() {
            assert(r[k] == v);
            assert(s.contains(s[j]) == s.contains(r[j]));
            assert(s[j] != v) by {
                if s[j] == v {
                    assert(s.contains(v));
                }
            }
        } else {
            assert(r[j] == v);
            assert(s[k] != v) by {
                if s[k] == v {
                    assert(s.contains(v));
                }
            }
        }
    }
    assert forall|x: T| r.contains(x) <==> (s.contains(x) || x == v) by {
        if r.contains(x) {
            let j = choose|j: int| 0 <= j < r.len() && r[j] == x;
            if j < s.len() {
                assert(s[j] == x);
                assert(s.contains(x));
            }
        }
        if s.contains(x) {
            let j = choose|j: int| 0 <= j < s.len() && s[j] == x;
            assert(r[j] == x);
            assert(r.contains(x));
        }
        if x == v {
            assert(r[s.len() as int] == x);
            assert(r.contains(x));
        }
    }
}

/// Access-order record of the resident pages.
pub struct LruTracker {
    order: Vec<u32>,
}

impl View for LruTracker {
    type V = Seq<u32>;

    closed spec fn view(&self) -> Seq<u32> {
        self.order@
    }
}

/// Finds the index of the first occurrence of a page in the order.
fn position_of(order: &Vec<u32>, vpn: u32) -> (r: Option<usize>)
    ensures
        match r {
            Some(i) => i < order@.len() && order@[i as int] == vpn && (forall|j: int|
                0 <= j < i ==> order@[j] != vpn),
            None => !order@.contains(vpn),
        },
{
    let mut i: usize = 0;
    while i < order.len()
        invariant
            i <= order@.len(),
            forall|j: int| 0 <= j < i ==> order@[j] != vpn,
        decreases order@.len() - i,
    {
        if order[i] == vpn {
            return Some(i);
        }
        i = i + 1;
    }
    None
}

impl LruTracker {
    /// A tracker holds each page at most once.
    pub open spec fn wf(&self) -> bool {
        self@.no_duplicates()
    }

    /// Creates an empty tracker.
    pub fn new() -> (t: LruTracker)
        ensures
            t.wf(),
            t@ == Seq::<u32>::empty(),
    {
        LruTracker { order: Vec::new() }
    }

    /// Moves the page to the most-recently-used position, inserting it
    /// there if it was absent.
    pub fn record_access(&mut self, vpn: u32)
        requires
            old(self).wf(),
        ensures
            final(self).wf(),
            final(self)@ == old(self)@.remove_value(vpn).push(vpn),
    {
        proof {
            lemma_remove_value_distinct(self@, vpn);
            lemma_push_distinct(self@.remove_value(vpn), vpn);
        }
        match position_of(&self.order, vpn) {
            Some(i) => {
                proof {
                    let s = old(self)@;
                    s.index_of_first_ensures(vpn);
                    let fi = s.index_of_first(vpn).unwrap();
                    assert(s[i as int] == vpn);
                    assert(fi == i as int);
                }
                self.order.remove(i);
                self.order.push(vpn);
            },
            None => {
                self.order.push(vpn);
            },
        }
    }

    /// Returns, without removing it, the least-recently-used page, or
    /// `None` when no page is tracked.
    pub fn evict_candidate(&self) -> (r: Option<u32>)
        ensures
            r == (if self@.len() == 0 {
                None::<u32>
            } else {
                Some(self@[0])
            }),
    {
        if self.order.len() == 0 {
            None
        } else {
            Some(self.order[0])
        }
    }

    /// Deletes the page's entry, if it has one.
    pub fn remove(&mut self, vpn: u32)
        requires
            old(self).wf(),
        ensures
            final(self).wf(),
            final(self)@ == old(self)@.remove_value(vpn),
    {
        proof {
            lemma_remove_value_distinct(self@, vpn);
        }
        match position_of(&self.order, vpn) {
            Some(i) => {
                proof {
                    let s = old(self)@;
                    s.index_of_first_ensures(vpn);
                    let fi = s.index_of_first(vpn).unwrap();
                    assert(s[i as int] == vpn);
                    assert(fi == i as int);
                }
                self.order.remove(i);
            },
            None => {},
        }
    }
}

} // verus!
