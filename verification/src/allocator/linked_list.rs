//! First-fit allocation with coalescing.
//!
//! The allocator keeps a list of free regions, sorted by address and
//! always maximally coalesced: between two consecutive free regions
//! there is always a gap of in-use memory. `allocate` scans for the
//! first region that can serve the request after alignment, carves the
//! block out and returns any excess to the list; `deallocate` puts the
//! range back and merges it with whichever neighbours touch it.
//!
//! A ghost set of live allocations rides along: everything handed out
//! and not yet freed. It is how the central safety property is stated
//! — live allocations never overlap each other or the free list.

use crate::allocator::{align_up_checked, align_up_spec, is_power_of_two};
use vstd::prelude::*;
use vstd::std_specs::vec::vec_index_mut;

verus! {

/// One free region: `size` bytes starting at `addr`.
#[derive(Clone, Copy, PartialEq, Eq, Structural, Debug)]
pub struct ListNode {
    pub addr: usize,
    pub size: usize,
}

/// Address `x` lies in some region of `s`.
pub open spec fn covers(s: Seq<ListNode>, x: int) -> bool {
    exists|i: int| 0 <= i < s.len() && (#[trigger] s[i]).addr <= x < s[i].addr + s[i].size
}

/// A region of `s` that contains `x`.
pub proof fn lemma_covers_index(s: Seq<ListNode>, x: int) -> (i: int)
    requires
        covers(s, x),
    ensures
        0 <= i < s.len(),
        s[i].addr <= x < s[i].addr + s[i].size,
{
    choose|i: int| 0 <= i < s.len() && (#[trigger] s[i]).addr <= x < s[i].addr + s[i].size
}

/// Region `n` can serve `size` bytes at alignment `align`.
pub open spec fn fits(n: ListNode, size: int, align: int) -> bool {
    align_up_spec(n.addr as int, align) + size <= n.addr + n.size
}

/// The index of the first region that can serve the request.
pub open spec fn first_fit(s: Seq<ListNode>, size: int, align: int) -> Option<int>
    decreases s.len(),
{
    if s.len() <= 0 {
        None
    } else if fits(s[0], size, align) {
        Some(0int)
    } else {
        match first_fit(s.drop_first(), size, align) {
            Some(i) => Some(i + 1),
            None => None,
        }
    }
}

/// The ranges `[a1, a1+s1)` and `[a2, a2+s2)` do not overlap.
pub open spec fn ranges_disjoint(a1: int, s1: int, a2: int, s2: int) -> bool {
    a1 + s1 <= a2 || a2 + s2 <= a1
}

/// `first_fit` names exactly the least fitting index: if nothing below
/// `i` fits and `i` does (or `i` is the length and nothing fits at
/// all), that settles the search.
pub proof fn lemma_first_fit_is_first(s: Seq<ListNode>, size: int, align: int, i: int)
    requires
        0 <= i <= s.len(),
        forall|j: int| 0 <= j < i ==> !fits(#[trigger] s[j], size, align),
        i < s.len() ==> fits(s[i], size, align),
    ensures
        i < s.len() ==> first_fit(s, size, align) == Some(i),
        i == s.len() ==> first_fit(s, size, align) is None,
    decreases s.len(),
{
    if s.len() == 0 {
    } else if i == 0 {
    } else {
        assert(!fits(s[0], size, align));
        let d = s.drop_first();
        assert(forall|j: int| 0 <= j < i - 1 ==> #[trigger] d[j] == s[j + 1]);
        lemma_first_fit_is_first(d, size, align, i - 1);
    }
}

/// Everything `LinkedListAllocator::allocate` promises about a call
/// on state `pre` that returned `r` and left state `post`.
pub open spec fn allocate_effect(
    pre: LinkedListAllocator,
    post: LinkedListAllocator,
    size: int,
    align: int,
    r: Option<usize>,
) -> bool {
    &&& post.heap_start == pre.heap_start
    &&& post.heap_end == pre.heap_end
    &&& match r {
        Some(a) => {
            &&& first_fit(pre.nodes(), size, align) matches Some(i) && a == align_up_spec(
                pre.nodes()[i].addr as int,
                align,
            )
            &&& a as int % align == 0
            &&& pre.heap_start <= a
            &&& a + size <= pre.heap_end
            &&& forall|x: int| a <= x < a + size ==> covers(pre.nodes(), x)
            &&& forall|x: int|
                #![trigger covers(post.nodes(), x)]
                #![trigger covers(pre.nodes(), x)]
                covers(post.nodes(), x) <==> (covers(pre.nodes(), x) && !(a <= x < a + size))
            &&& post.live@ == pre.live@.insert((a as int, size))
        },
        None => {
            &&& post == pre
            &&& first_fit(pre.nodes(), size, align) is None
        },
    }
}

/// Everything `LinkedListAllocator::deallocate` promises about a call
/// that gave the range `[addr, addr+size)` back.
pub open spec fn deallocate_effect(
    pre: LinkedListAllocator,
    post: LinkedListAllocator,
    addr: int,
    size: int,
) -> bool {
    &&& post.heap_start == pre.heap_start
    &&& post.heap_end == pre.heap_end
    &&& post.live@ == pre.live@.remove((addr, size))
    &&& forall|x: int|
        #![trigger covers(post.nodes(), x)]
        #![trigger covers(pre.nodes(), x)]
        covers(post.nodes(), x) <==> (covers(pre.nodes(), x) || (addr <= x < addr + size))
}

pub struct LinkedListAllocator {
    pub heap_start: usize,
    pub heap_end: usize,
    pub free: Vec<ListNode>,
    /// Every allocation handed out and not yet freed.
    pub live: Ghost<Set<(int, int)>>,
}

impl LinkedListAllocator {
    /// The free regions in ascending address order.
    pub open spec fn nodes(self) -> Seq<ListNode> {
        self.free@
    }

    /// Free regions are nonempty, lie inside the heap, ascend by
    /// address, and never touch (touching regions get coalesced).
    pub open spec fn wf_free(self) -> bool {
        &&& self.heap_start <= self.heap_end <= usize::MAX
        &&& forall|i: int|
            0 <= i < self.free@.len() ==> self.heap_start <= (#[trigger] self.free@[i]).addr
                && self.free@[i].addr + self.free@[i].size <= self.heap_end && self.free@[i].size
                > 0
        &&& forall|i: int, j: int|
            0 <= i < j < self.free@.len() ==> (#[trigger] self.free@[i]).addr + self.free@[i].size
                < (#[trigger] self.free@[j]).addr
    }

    /// Live allocations lie inside the heap, avoid every free region,
    /// and never overlap one another.
    pub open spec fn wf_live(self) -> bool {
        &&& forall|r: (int, int)|
            #[trigger] self.live@.contains(r) ==> self.heap_start <= r.0 && r.0 + r.1
                <= self.heap_end && r.1 > 0 && (forall|x: int|
                r.0 <= x < r.0 + r.1 ==> !covers(self.free@, x))
        &&& forall|r1: (int, int), r2: (int, int)|
            #[trigger] self.live@.contains(r1) && #[trigger] self.live@.contains(r2) && r1 != r2
                ==> ranges_disjoint(r1.0, r1.1, r2.0, r2.1)
    }

    pub open spec fn wf(self) -> bool {
        self.wf_free() && self.wf_live()
    }

    /// An empty allocator; unusable until `init` gives it a region.
    pub fn new() -> (r: Self)
        ensures
            r.wf(),
            r.heap_start == 0,
            r.heap_end == 0,
            r.nodes().len() == 0,
            r.live@ == Set::<(int, int)>::empty(),
    {
        LinkedListAllocator {
            heap_start: 0,
            heap_end: 0,
            free: Vec::new(),
            live: Ghost(Set::empty()),
        }
    }

    /// Hand the allocator its heap region: one free region covering
    /// all of it. Called exactly once, before any allocation.
    pub fn init(&mut self, heap_start: usize, heap_size: usize)
        requires
            old(self).nodes().len() == 0,
            old(self).live@ == Set::<(int, int)>::empty(),
            heap_size > 0,
            heap_start + heap_size <= usize::MAX,
        ensures
            final(self).wf(),
            final(self).heap_start == heap_start,
            final(self).heap_end == heap_start + heap_size,
            final(self).live@ == Set::<(int, int)>::empty(),
            final(self).nodes() == seq![ListNode { addr: heap_start, size: heap_size }],
            forall|x: int|
                #[trigger] covers(final(self).nodes(), x) <==> heap_start <= x < heap_start
                    + heap_size,
    {
        self.heap_start = heap_start;
        self.heap_end = heap_start + heap_size;
        self.free = Vec::new();
        self.free.push(ListNode { addr: heap_start, size: heap_size });
        proof {
            assert(self.nodes() =~= seq![ListNode { addr: heap_start, size: heap_size }]);
            assert forall|x: int| heap_start <= x < heap_start + heap_size implies covers(
                self.nodes(),
                x,
            ) by {
                assert(self.nodes()[0].addr <= x < self.nodes()[0].addr + self.nodes()[0].size);
            }
        }
    }

    /// First fit: scan the free regions in address order for the first
    /// one that can serve the request after alignment, carve the block
    /// out of it, and give any excess back to the list. Fails exactly
    /// when no region fits, and the state is then untouched.
    #[verifier::loop_isolation(false)]
    #[verifier::rlimit(60)]
    pub fn allocate(&mut self, size: usize, align: usize) -> (r: Option<usize>)
        requires
            old(self).wf(),
            is_power_of_two(align),
            size > 0,
        ensures
            final(self).wf(),
            allocate_effect(*old(self), *final(self), size as int, align as int, r),
    {
        let ghost s = self.free@;
        let n = self.free.len();
        let mut i: usize = 0;
        while i < n
            invariant
                i <= n,
                *self == *old(self),
                forall|j: int| 0 <= j < i ==> !fits(#[trigger] s[j], size as int, align as int),
            decreases n - i,
        {
            let node = self.free[i];
            let node_end = node.addr + node.size;
            let mut found: Option<usize> = None;
            match align_up_checked(node.addr, align) {
                Some(aligned) => {
                    if aligned <= node_end && size <= node_end - aligned {
                        found = Some(aligned);
                    }
                },
                None => {},
            }
            match found {
                Some(aligned) => {
                    proof {
                        assert(fits(s[i as int], size as int, align as int));
                        lemma_first_fit_is_first(s, size as int, align as int, i as int);
                    }
                    let front_size = aligned - node.addr;
                    let back_size = node_end - (aligned + size);
                    self.free.remove(i);
                    if back_size > 0 {
                        self.free.insert(i, ListNode { addr: aligned + size, size: back_size });
                    }
                    if front_size > 0 {
                        self.free.insert(i, ListNode { addr: node.addr, size: front_size });
                    }
                    self.live = Ghost(self.live@.insert((aligned as int, size as int)));
                    proof {
                        self.lemma_allocate_shape(
                            *old(self),
                            s,
                            i as int,
                            node,
                            aligned as int,
                            size as int,
                            front_size as int,
                            back_size as int,
                        );
                    }
                    return Some(aligned);
                },
                None => {
                    proof {
                        assert(!fits(s[i as int], size as int, align as int));
                    }
                },
            }
            i = i + 1;
        }
        proof {
            lemma_first_fit_is_first(s, size as int, align as int, n as int);
        }
        None
    }

    /// The proof behind `allocate`'s carve, for every shape the split
    /// can take: coverage shrinks by exactly the block handed out, the
    /// free list stays sorted and separated, and the new allocation
    /// joins the live set without overlapping anything.
    #[verifier::rlimit(100)]
    proof fn lemma_allocate_shape(
        &self,
        prev: Self,
        s: Seq<ListNode>,
        i: int,
        node: ListNode,
        a: int,
        size: int,
        front_size: int,
        back_size: int,
    )
        requires
            prev.wf(),
            s == prev.free@,
            0 <= i < s.len(),
            node == s[i],
            size > 0,
            node.addr <= a,
            front_size == a - node.addr,
            back_size == node.addr + node.size - (a + size),
            back_size >= 0,
            self.heap_start == prev.heap_start,
            self.heap_end == prev.heap_end,
            self.live@ == prev.live@.insert((a, size)),
            self.free@ == ({
                let removed = s.remove(i);
                let with_back = if back_size > 0 {
                    removed.insert(i, ListNode { addr: (a + size) as usize, size: back_size as usize })
                } else {
                    removed
                };
                if front_size > 0 {
                    with_back.insert(i, ListNode { addr: node.addr, size: front_size as usize })
                } else {
                    with_back
                }
            }),
        ensures
            self.wf(),
            forall|x: int| a <= x < a + size ==> covers(s, x),
            forall|x: int|
                #![trigger covers(self.free@, x)]
                #![trigger covers(s, x)]
                covers(self.free@, x) <==> (covers(s, x) && !(a <= x < a + size)),
    {
        let node_end = node.addr + node.size;
        let front = ListNode { addr: node.addr, size: front_size as usize };
        let back = ListNode { addr: (a + size) as usize, size: back_size as usize };
        let t = self.free@;
        let m: int = (if front_size > 0 {
            1int
        } else {
            0int
        }) + (if back_size > 0 {
            1int
        } else {
            0int
        });
        // The carve, slot by slot.
        assert(t.len() == s.len() - 1 + m);
        assert forall|j: int| 0 <= j < i implies t[j] == s[j] by {}
        assert forall|j: int| i + m <= j < t.len() implies t[j] == s[j - m + 1] by {}
        if front_size > 0 {
            assert(t[i] == front);
            if back_size > 0 {
                assert(t[i + 1] == back);
            }
        } else if back_size > 0 {
            assert(t[i] == back);
        }
        // The block handed out comes from the fitting region.
        assert forall|x: int| a <= x < a + size implies covers(s, x) by {
            assert(s[i].addr <= x < s[i].addr + s[i].size);
        }
        // Coverage shrinks by exactly the block handed out.
        assert forall|x: int|
            covers(t, x) <==> (covers(s, x) && !(a <= x < a + size)) by {
            if covers(t, x) {
                let j = lemma_covers_index(t, x);
                if j < i {
                    assert(s[j].addr <= x < s[j].addr + s[j].size);
                } else if j >= i + m {
                    assert(s[j - m + 1].addr <= x < s[j - m + 1].addr + s[j - m + 1].size);
                } else {
                    assert(s[i].addr <= x < s[i].addr + s[i].size);
                }
                if a <= x < a + size {
                    // the carved pieces and the other regions all avoid the block
                    if j < i {
                        assert(s[j].addr + s[j].size < s[i].addr);
                        assert(false);
                    } else if j >= i + m {
                        assert(node_end < s[j - m + 1].addr);
                        assert(false);
                    } else {
                        assert(false);
                    }
                }
            }
            if covers(s, x) && !(a <= x < a + size) {
                let j = lemma_covers_index(s, x);
                if j < i {
                    assert(t[j].addr <= x < t[j].addr + t[j].size);
                } else if j > i {
                    assert(t[j + m - 1].addr <= x < t[j + m - 1].addr + t[j + m - 1].size);
                } else {
                    // inside the fitting region but outside the block:
                    // the front or the back piece holds it
                    if x < a {
                        assert(front_size > 0);
                        assert(t[i].addr <= x < t[i].addr + t[i].size);
                    } else {
                        assert(x >= a + size);
                        assert(back_size > 0);
                        if front_size > 0 {
                            assert(t[i + 1].addr <= x < t[i + 1].addr + t[i + 1].size);
                        } else {
                            assert(t[i].addr <= x < t[i].addr + t[i].size);
                        }
                    }
                }
            }
        }
        // The free list stays sorted, separated and inside the heap.
        assert forall|p: int, q: int| 0 <= p < q < t.len() implies (#[trigger] t[p]).addr
            + t[p].size < (#[trigger] t[q]).addr by {
            if p < i {
                assert(t[p] == s[p]);
            }
            if q >= i + m {
                assert(t[q] == s[q - m + 1]);
            }
            if i <= p < i + m && i <= q < i + m {
                assert(front_size > 0 && back_size > 0 && p == i && q == i + 1);
            }
        }
        assert(self.wf_free());
        // Live allocations keep their invariant.
        assert forall|r: (int, int)| #[trigger] self.live@.contains(r) implies self.heap_start
            <= r.0 && r.0 + r.1 <= self.heap_end && r.1 > 0 && (forall|x: int|
            r.0 <= x < r.0 + r.1 ==> !covers(self.free@, x)) by {
            if r == (a, size) {
                assert(node.addr + node.size <= prev.heap_end);
                assert forall|x: int| r.0 <= x < r.0 + r.1 implies !covers(self.free@, x) by {}
            } else {
                assert(prev.live@.contains(r));
                assert forall|x: int| r.0 <= x < r.0 + r.1 implies !covers(self.free@, x) by {
                    assert(!covers(s, x));
                }
            }
        }
        assert forall|r1: (int, int), r2: (int, int)|
            #[trigger] self.live@.contains(r1) && #[trigger] self.live@.contains(r2) && r1 != r2
            implies ranges_disjoint(r1.0, r1.1, r2.0, r2.1) by {
            if r1 == (a, size) || r2 == (a, size) {
                let o = if r1 == (a, size) {
                    r2
                } else {
                    r1
                };
                assert(prev.live@.contains(o));
                if !ranges_disjoint(o.0, o.1, a, size) {
                    let x0 = if a >= o.0 {
                        a
                    } else {
                        o.0
                    };
                    assert(a <= x0 < a + size);
                    assert(o.0 <= x0 < o.0 + o.1);
                    assert(covers(s, x0));
                    assert(!covers(s, x0));
                }
            } else {
                assert(prev.live@.contains(r1) && prev.live@.contains(r2));
            }
        }
    }

    /// Give a live allocation back: reinsert the range in address
    /// order and merge it with any free neighbour it touches, so the
    /// free list stays maximally coalesced.
    #[verifier::loop_isolation(false)]
    #[verifier::rlimit(100)]
    pub fn deallocate(&mut self, addr: usize, size: usize, _align: usize)
        requires
            old(self).wf(),
            old(self).live@.contains((addr as int, size as int)),
        ensures
            final(self).wf(),
            deallocate_effect(*old(self), *final(self), addr as int, size as int),
    {
        let ghost s = self.free@;
        proof {
            // the freed range is a live allocation: nonempty, inside
            // the heap, and clear of every free region
            assert(old(self).live@.contains((addr as int, size as int)));
        }
        let n = self.free.len();
        let mut p: usize = 0;
        while p < n && self.free[p].addr < addr
            invariant
                p <= n,
                forall|j: int| 0 <= j < p ==> (#[trigger] s[j]).addr < addr,
            decreases n - p,
        {
            p = p + 1;
        }
        proof {
            if p < n && s[p as int].addr <= addr {
                assert(s[p as int].addr <= addr < s[p as int].addr + s[p as int].size);
                assert(covers(s, addr as int));
                assert(false);
            }
        }
        let mut merge_prev = false;
        if p > 0 {
            let pn = self.free[p - 1];
            proof {
                if pn.addr + pn.size > addr {
                    assert(s[p - 1].addr <= addr < s[p - 1].addr + s[p - 1].size);
                    assert(covers(s, addr as int));
                    assert(false);
                }
            }
            if pn.addr + pn.size == addr {
                merge_prev = true;
            }
        }
        let mut merge_next = false;
        if p < n {
            let nx = self.free[p];
            proof {
                if (nx.addr as int) < addr + size {
                    assert(s[p as int].addr <= nx.addr < s[p as int].addr + s[p as int].size);
                    assert(covers(s, nx.addr as int));
                    assert(false);
                }
            }
            if addr + size == nx.addr {
                merge_next = true;
            }
        }
        let new_addr = if merge_prev {
            self.free[p - 1].addr
        } else {
            addr
        };
        let new_end = if merge_next {
            let nx = self.free[p];
            nx.addr + nx.size
        } else {
            addr + size
        };
        let merged = ListNode { addr: new_addr, size: new_end - new_addr };
        if merge_prev && merge_next {
            let slot = vec_index_mut(&mut self.free, p - 1);
            *slot = merged;
            self.free.remove(p);
        } else if merge_prev {
            let slot = vec_index_mut(&mut self.free, p - 1);
            *slot = merged;
        } else if merge_next {
            let slot = vec_index_mut(&mut self.free, p);
            *slot = merged;
        } else {
            self.free.insert(p, merged);
        }
        self.live = Ghost(self.live@.remove((addr as int, size as int)));
        proof {
            let lo: int = if merge_prev {
                p - 1
            } else {
                p as int
            };
            let hi: int = if merge_next {
                p + 1
            } else {
                p as int
            };
            let t = self.free@;
            assert(t.len() == s.len() + 1 - (hi - lo));
            assert forall|j: int| 0 <= j < lo implies t[j] == s[j] by {}
            assert(t[lo] == merged);
            assert forall|j: int| lo < j < t.len() implies t[j] == s[j + (hi - lo) - 1] by {}
            // Coverage grows by exactly the freed range.
            assert forall|x: int|
                covers(t, x) <==> (covers(s, x) || (addr <= x < addr + size)) by {
                if covers(t, x) {
                    let j = lemma_covers_index(t, x);
                    if j < lo {
                        assert(s[j].addr <= x < s[j].addr + s[j].size);
                    } else if j > lo {
                        assert(s[j + (hi - lo) - 1].addr <= x < s[j + (hi - lo) - 1].addr + s[j
                            + (hi - lo) - 1].size);
                    } else {
                        // inside the merged region: previous neighbour,
                        // freed range, or next neighbour
                        if merge_prev && x < addr {
                            assert(s[p - 1].addr <= x < s[p - 1].addr + s[p - 1].size);
                        } else if merge_next && x >= addr + size {
                            assert(s[p as int].addr <= x < s[p as int].addr + s[p as int].size);
                        } else {
                            assert(addr <= x < addr + size);
                        }
                    }
                }
                if covers(s, x) {
                    let j = lemma_covers_index(s, x);
                    if j < lo {
                        assert(t[j].addr <= x < t[j].addr + t[j].size);
                    } else if j >= hi {
                        assert(t[j - (hi - lo) + 1].addr <= x < t[j - (hi - lo) + 1].addr + t[j
                            - (hi - lo) + 1].size);
                    } else {
                        assert(t[lo].addr <= x < t[lo].addr + t[lo].size);
                    }
                }
                if addr <= x < addr + size {
                    assert(t[lo].addr <= x < t[lo].addr + t[lo].size);
                }
            }
            // Sortedness and separation survive the merge.
            assert forall|u: int, v: int| 0 <= u < v < t.len() implies (#[trigger] t[u]).addr
                + t[u].size < (#[trigger] t[v]).addr by {
                if u < lo {
                    assert(t[u] == s[u]);
                }
                if v > lo {
                    assert(t[v] == s[v + (hi - lo) - 1]);
                }
                if u == lo {
                    if merge_next {
                        assert(merged.addr + merged.size == s[p as int].addr + s[p as int].size);
                    }
                }
                if v == lo {
                    if merge_prev {
                        assert(merged.addr == s[p - 1].addr);
                    }
                }
            }
            assert(self.wf_free());
            // Remaining live allocations still avoid the free list.
            assert forall|r: (int, int)| #[trigger] self.live@.contains(r) implies self.heap_start
                <= r.0 && r.0 + r.1 <= self.heap_end && r.1 > 0 && (forall|x: int|
                r.0 <= x < r.0 + r.1 ==> !covers(self.free@, x)) by {
                assert(old(self).live@.contains(r));
                assert(r != (addr as int, size as int));
                assert(ranges_disjoint(r.0, r.1, addr as int, size as int));
                assert forall|x: int| r.0 <= x < r.0 + r.1 implies !covers(self.free@, x) by {
                    assert(!covers(s, x));
                    assert(!(addr <= x < addr + size));
                }
            }
        }
    }
}

/// No two distinct live allocations ever overlap: whatever balanced
/// sequence of allocate and free calls produced the state, everything
/// handed out and not yet freed occupies pairwise disjoint ranges.
pub proof fn lemma_live_allocations_disjoint(
    al: LinkedListAllocator,
    r1: (int, int),
    r2: (int, int),
)
    requires
        al.wf(),
        al.live@.contains(r1),
        al.live@.contains(r2),
        r1 != r2,
    ensures
        ranges_disjoint(r1.0, r1.1, r2.0, r2.1),
{
}

} // verus!
