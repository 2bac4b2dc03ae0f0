//! Size-class segregated free lists with fallback.
//!
//! A fixed ascending ladder of power-of-two block sizes. A request is
//! served from the free list of the smallest class that can hold both
//! its size and its alignment: popping a block is O(1), and a class
//! miss fetches a fresh block of exactly the class size (and class
//! alignment) from the fallback first-fit allocator. Requests beyond
//! the largest class go to the fallback untouched. Freeing mirrors
//! this: class-sized blocks go back onto their class list with no
//! coalescing — that asymmetry is the design's O(1)-free tradeoff —
//! and oversized blocks return to the coalescing fallback.

use crate::allocator::is_power_of_two;
use crate::allocator::linked_list::{
    allocate_effect, deallocate_effect, lemma_live_allocations_disjoint, ranges_disjoint,
    LinkedListAllocator,
};
use vstd::arithmetic::div_mod::{lemma_fundamental_div_mod, lemma_mod_multiples_basic};
use vstd::arithmetic::mul::lemma_mul_is_associative;
use vstd::prelude::*;
use vstd::std_specs::vec::vec_index_mut;

verus! {

/// How many block size classes are configured.
pub const BLOCK_SIZE_COUNT: usize = 9;

/// Bytes a free-list link cell needs inside a freed block.
pub const FREE_NODE_BYTES: usize = 8;

/// The ascending block sizes; used as each class's alignment too, so
/// every entry is a power of two.
pub open spec fn block_size_spec(i: int) -> int {
    if i == 0 {
        8
    } else if i == 1 {
        16
    } else if i == 2 {
        32
    } else if i == 3 {
        64
    } else if i == 4 {
        128
    } else if i == 5 {
        256
    } else if i == 6 {
        512
    } else if i == 7 {
        1024
    } else {
        2048
    }
}

/// The block size of class `i`.
pub fn block_size(i: usize) -> (r: usize)
    requires
        i < BLOCK_SIZE_COUNT,
    ensures
        r == block_size_spec(i as int),
        is_power_of_two(r),
        r >= FREE_NODE_BYTES,
{
    let r: usize = if i == 0 {
        8
    } else if i == 1 {
        16
    } else if i == 2 {
        32
    } else if i == 3 {
        64
    } else if i == 4 {
        128
    } else if i == 5 {
        256
    } else if i == 6 {
        512
    } else if i == 7 {
        1024
    } else {
        2048
    };
    proof {
        assert(r & ((r - 1) as usize) == 0) by (bit_vector)
            requires
                r == 8 || r == 16 || r == 32 || r == 64 || r == 128 || r == 256 || r == 512 || r
                    == 1024 || r == 2048,
        ;
    }
    r
}

/// The size a request really needs from its class: it must hold the
/// requested bytes, and the class's own alignment must reach the
/// requested alignment.
pub open spec fn required_size(size: int, align: int) -> int {
    if size >= align {
        size
    } else {
        align
    }
}

/// The class that serves a request: the smallest block size at least
/// `max(size, align)`, or none when the request exceeds the largest
/// class and must go to the fallback allocator.
pub open spec fn list_index_spec(size: int, align: int) -> Option<int> {
    let r = required_size(size, align);
    if r <= 8 {
        Some(0int)
    } else if r <= 16 {
        Some(1int)
    } else if r <= 32 {
        Some(2int)
    } else if r <= 64 {
        Some(3int)
    } else if r <= 128 {
        Some(4int)
    } else if r <= 256 {
        Some(5int)
    } else if r <= 512 {
        Some(6int)
    } else if r <= 1024 {
        Some(7int)
    } else if r <= 2048 {
        Some(8int)
    } else {
        None
    }
}

/// Size-class selection picks the smallest class that fits both size
/// and alignment, and rejects exactly the requests beyond the largest
/// class.
pub proof fn lemma_list_index_selects_smallest(size: int, align: int)
    ensures
        match list_index_spec(size, align) {
            Some(c) => {
                &&& 0 <= c < BLOCK_SIZE_COUNT
                &&& block_size_spec(c) >= required_size(size, align)
                &&& forall|j: int| 0 <= j < c ==> block_size_spec(j) < required_size(size, align)
                &&& required_size(size, align) <= 2048
            },
            None => required_size(size, align) > 2048,
        },
{
}

/// The class index for a request, or `None` for the fallback route.
pub fn list_index(size: usize, align: usize) -> (r: Option<usize>)
    ensures
        match list_index_spec(size as int, align as int) {
            Some(c) => r == Some(c as usize),
            None => r is None,
        },
{
    let required: usize = if size >= align {
        size
    } else {
        align
    };
    if required <= 8 {
        Some(0)
    } else if required <= 16 {
        Some(1)
    } else if required <= 32 {
        Some(2)
    } else if required <= 64 {
        Some(3)
    } else if required <= 128 {
        Some(4)
    } else if required <= 256 {
        Some(5)
    } else if required <= 512 {
        Some(6)
    } else if required <= 1024 {
        Some(7)
    } else if required <= 2048 {
        Some(8)
    } else {
        None
    }
}

/// The block size actually backing a request: its class's block size,
/// or the request's own size on the fallback route.
pub open spec fn backing_size(size: int, align: int) -> int {
    match list_index_spec(size, align) {
        Some(c) => block_size_spec(c),
        None => size,
    }
}

/// A power of two divides every block size at least as large: the
/// alignments at or below a class are exactly the divisors the class
/// guarantees.
#[verifier::rlimit(60)]
proof fn lemma_pow2_divides(align: usize, class: usize)
    requires
        is_power_of_two(align),
        align <= class,
        class == 8 || class == 16 || class == 32 || class == 64 || class == 128 || class == 256
            || class == 512 || class == 1024 || class == 2048,
    ensures
        class as int % align as int == 0,
{
    assert(align == 1 || align == 2 || align == 4 || align == 8 || align == 16 || align == 32
        || align == 64 || align == 128 || align == 256 || align == 512 || align == 1024 || align
        == 2048) by (bit_vector)
        requires
            align > 0,
            align & ((align - 1) as usize) == 0,
            align <= 2048,
    ;
    assert(class as int % align as int == 0) by (nonlinear_arith)
        requires
            align == 1 || align == 2 || align == 4 || align == 8 || align == 16 || align == 32
                || align == 64 || align == 128 || align == 256 || align == 512 || align == 1024
                || align == 2048,
            class == 8 || class == 16 || class == 32 || class == 64 || class == 128 || class
                == 256 || class == 512 || class == 1024 || class == 2048,
            align <= class,
    ;
}

/// Divisibility is transitive: a multiple of `c` is a multiple of any
/// divisor `a` of `c`.
proof fn lemma_mod_zero_transitive(x: int, c: int, a: int)
    requires
        c > 0,
        a > 0,
        x % c == 0,
        c % a == 0,
    ensures
        x % a == 0,
{
    lemma_fundamental_div_mod(x, c);
    lemma_fundamental_div_mod(c, a);
    assert(x == (a * (c / a)) * (x / c));
    lemma_mul_is_associative(a, c / a, x / c);
    lemma_mod_multiples_basic((c / a) * (x / c), a);
}

/// The class free lists `pre` and `post` agree everywhere.
pub open spec fn heads_eq(pre: Seq<Vec<usize>>, post: Seq<Vec<usize>>) -> bool {
    &&& post.len() == pre.len()
    &&& forall|c: int| 0 <= c < pre.len() ==> (#[trigger] post[c])@ == (#[trigger] pre[c])@
}

/// The class free lists agree except at class `c`.
pub open spec fn heads_eq_except(pre: Seq<Vec<usize>>, post: Seq<Vec<usize>>, c: int) -> bool {
    &&& post.len() == pre.len()
    &&& forall|c2: int|
        0 <= c2 < pre.len() && c2 != c ==> (#[trigger] post[c2])@ == (#[trigger] pre[c2])@
}

pub struct FixedSizeBlockAllocator {
    /// One stack of free block addresses per size class.
    pub list_heads: Vec<Vec<usize>>,
    /// The coalescing first-fit allocator behind the classes.
    pub fallback_allocator: LinkedListAllocator,
    /// Every allocation handed out and not yet freed, with the size
    /// and alignment it was requested under.
    pub live: Ghost<Set<(int, int, int)>>,
}

impl FixedSizeBlockAllocator {
    /// Every block parked on a class list is a live block of the
    /// fallback allocator, of exactly the class's size, aligned to it,
    /// and no block is parked twice.
    pub open spec fn class_ok(self) -> bool {
        &&& self.list_heads@.len() == BLOCK_SIZE_COUNT
        &&& forall|c: int, k: int|
            #![trigger self.list_heads@[c]@[k]]
            0 <= c < self.list_heads@.len() && 0 <= k < self.list_heads@[c]@.len() ==> {
                &&& self.fallback_allocator.live@.contains(
                    (self.list_heads@[c]@[k] as int, block_size_spec(c)),
                )
                &&& self.list_heads@[c]@[k] as int % block_size_spec(c) == 0
            }
        &&& forall|c1: int, k1: int, c2: int, k2: int|
            #![trigger self.list_heads@[c1]@[k1], self.list_heads@[c2]@[k2]]
            0 <= c1 < self.list_heads@.len() && 0 <= k1 < self.list_heads@[c1]@.len() && 0 <= c2
                < self.list_heads@.len() && 0 <= k2 < self.list_heads@[c2]@.len() && (c1 != c2 || k1
                != k2) ==> self.list_heads@[c1]@[k1] != self.list_heads@[c2]@[k2]
    }

    /// Every allocation handed out is backed by a live block of the
    /// fallback allocator at the same address — a parked class block
    /// or a directly carved range — large enough for the request,
    /// suitably aligned, not currently parked on any class list, and
    /// at an address all its own.
    pub open spec fn user_ok(self) -> bool {
        &&& forall|r: (int, int, int)|
            #[trigger] self.live@.contains(r) ==> {
                &&& r.1 > 0
                &&& r.1 <= backing_size(r.1, r.2)
                &&& self.fallback_allocator.live@.contains((r.0, backing_size(r.1, r.2)))
                &&& match list_index_spec(r.1, r.2) {
                    Some(c) => r.0 % block_size_spec(c) == 0,
                    None => r.0 % r.2 == 0,
                }
                &&& forall|c: int, k: int|
                    0 <= c < self.list_heads@.len() && 0 <= k < self.list_heads@[c]@.len() ==> (
                    #[trigger] self.list_heads@[c]@[k]) as int != r.0
            }
        &&& forall|r1: (int, int, int), r2: (int, int, int)|
            #[trigger] self.live@.contains(r1) && #[trigger] self.live@.contains(r2) && r1 != r2
                ==> r1.0 != r2.0
    }

    pub open spec fn wf(self) -> bool {
        &&& self.fallback_allocator.wf()
        &&& self.class_ok()
        &&& self.user_ok()
    }

    /// An empty allocator: every class list empty, the fallback bare.
    pub fn new() -> (r: Self)
        ensures
            r.wf(),
            forall|c: int| 0 <= c < BLOCK_SIZE_COUNT ==> (#[trigger] r.list_heads@[c])@.len() == 0,
            r.fallback_allocator.nodes().len() == 0,
            r.fallback_allocator.live@ == Set::<(int, int)>::empty(),
            r.live@ == Set::<(int, int, int)>::empty(),
    {
        let mut list_heads: Vec<Vec<usize>> = Vec::new();
        let mut c: usize = 0;
        while c < BLOCK_SIZE_COUNT
            invariant
                c <= BLOCK_SIZE_COUNT,
                list_heads@.len() == c,
                forall|j: int| 0 <= j < c ==> (#[trigger] list_heads@[j])@.len() == 0,
            decreases BLOCK_SIZE_COUNT - c,
        {
            list_heads.push(Vec::new());
            c = c + 1;
        }
        FixedSizeBlockAllocator {
            list_heads,
            fallback_allocator: LinkedListAllocator::new(),
            live: Ghost(Set::empty()),
        }
    }

    /// Hand the whole heap region to the fallback allocator. Called
    /// exactly once, before any allocation.
    pub fn init(&mut self, heap_start: usize, heap_size: usize)
        requires
            old(self).wf(),
            forall|c: int|
                0 <= c < BLOCK_SIZE_COUNT ==> (#[trigger] old(self).list_heads@[c])@.len() == 0,
            old(self).fallback_allocator.nodes().len() == 0,
            old(self).fallback_allocator.live@ == Set::<(int, int)>::empty(),
            old(self).live@ == Set::<(int, int, int)>::empty(),
            heap_size > 0,
            heap_start + heap_size <= usize::MAX,
        ensures
            final(self).wf(),
            heads_eq(old(self).list_heads@, final(self).list_heads@),
            final(self).live@ == old(self).live@,
            final(self).fallback_allocator.heap_start == heap_start,
            final(self).fallback_allocator.heap_end == heap_start + heap_size,
            final(self).fallback_allocator.nodes() == seq![
                crate::allocator::linked_list::ListNode { addr: heap_start, size: heap_size },
            ],
            final(self).fallback_allocator.live@ == Set::<(int, int)>::empty(),
    {
        self.fallback_allocator.init(heap_start, heap_size);
    }

    /// Pass a request straight through to the fallback allocator.
    fn fallback_alloc(&mut self, size: usize, align: usize) -> (r: Option<usize>)
        requires
            old(self).fallback_allocator.wf(),
            is_power_of_two(align),
            size > 0,
        ensures
            final(self).fallback_allocator.wf(),
            final(self).list_heads == old(self).list_heads,
            final(self).live == old(self).live,
            allocate_effect(
                old(self).fallback_allocator,
                final(self).fallback_allocator,
                size as int,
                align as int,
                r,
            ),
    {
        self.fallback_allocator.allocate(size, align)
    }

    /// Serve a request: pop the head of its class's free list when one
    /// is parked there; fetch a fresh block of exactly the class size
    /// from the fallback on a class miss; or, beyond the largest
    /// class, delegate the original request to the fallback untouched.
    pub fn allocate(&mut self, size: usize, align: usize) -> (r: Option<usize>)
        requires
            old(self).wf(),
            is_power_of_two(align),
            size > 0,
        ensures
            final(self).wf(),
            r matches Some(a) ==> {
                &&& a as int % align as int == 0
                &&& old(self).fallback_allocator.heap_start <= a
                &&& a + size <= old(self).fallback_allocator.heap_end
                &&& final(self).live@ == old(self).live@.insert(
                    (a as int, size as int, align as int),
                )
            },
            r is None ==> final(self).live@ == old(self).live@,
            match list_index_spec(size as int, align as int) {
                Some(c) => {
                    if old(self).list_heads@[c]@.len() > 0 {
                        &&& r == Some(old(self).list_heads@[c]@.last())
                        &&& heads_eq_except(old(self).list_heads@, final(self).list_heads@, c)
                        &&& final(self).list_heads@[c]@ == old(self).list_heads@[c]@.drop_last()
                        &&& final(self).fallback_allocator == old(self).fallback_allocator
                    } else {
                        &&& heads_eq(old(self).list_heads@, final(self).list_heads@)
                        &&& allocate_effect(
                            old(self).fallback_allocator,
                            final(self).fallback_allocator,
                            block_size_spec(c),
                            block_size_spec(c),
                            r,
                        )
                    }
                },
                None => {
                    &&& heads_eq(old(self).list_heads@, final(self).list_heads@)
                    &&& allocate_effect(
                        old(self).fallback_allocator,
                        final(self).fallback_allocator,
                        size as int,
                        align as int,
                        r,
                    )
                },
            },
    {
        proof {
            lemma_list_index_selects_smallest(size as int, align as int);
        }
        match list_index(size, align) {
            Some(index) => {
                let ghost c = index as int;
                let popped = vec_index_mut(&mut self.list_heads, index).pop();
                match popped {
                    Some(b) => {
                        self.live = Ghost(
                            self.live@.insert((b as int, size as int, align as int)),
                        );
                        proof {
                            let pre = *old(self);
                            assert(pre.list_heads@[c]@.last() == b);
                            assert(self.list_heads@[c]@ =~= pre.list_heads@[c]@.drop_last());
                            let bs = block_size_spec(c);
                            assert(pre.fallback_allocator.live@.contains((b as int, bs)));
                            lemma_pow2_divides(align, bs as usize);
                            lemma_mod_zero_transitive(b as int, bs, align as int);
                            self.lemma_wf_after_pop(pre, c, b, size as int, align as int);
                        }
                        Some(b)
                    },
                    None => {
                        let bs = block_size(index);
                        let r = self.fallback_alloc(bs, bs);
                        proof {
                            let pre = *old(self);
                            assert forall|c2: int| 0 <= c2 < pre.list_heads@.len() implies (
                            #[trigger] self.list_heads@[c2])@ == (pre.list_heads@[c2])@ by {}
                            assert(heads_eq(pre.list_heads@, self.list_heads@));
                            if let Some(b) = r {
                                lemma_pow2_divides(align, bs);
                                lemma_mod_zero_transitive(b as int, bs as int, align as int);
                            }
                        }
                        match r {
                            Some(b) => {
                                self.live = Ghost(
                                    self.live@.insert((b as int, size as int, align as int)),
                                );
                                proof {
                                    self.lemma_wf_after_fresh(
                                        *old(self),
                                        b as int,
                                        block_size_spec(c),
                                        size as int,
                                        align as int,
                                    );
                                }
                                Some(b)
                            },
                            None => None,
                        }
                    },
                }
            },
            None => {
                let r = self.fallback_alloc(size, align);
                proof {
                    assert(self.list_heads@ =~= old(self).list_heads@);
                }
                match r {
                    Some(b) => {
                        self.live = Ghost(
                            self.live@.insert((b as int, size as int, align as int)),
                        );
                        proof {
                            self.lemma_wf_after_fresh(
                                *old(self),
                                b as int,
                                size as int,
                                size as int,
                                align as int,
                            );
                        }
                        Some(b)
                    },
                    None => None,
                }
            },
        }
    }

    /// Popping a parked class block keeps the allocator well formed:
    /// the block leaves its list and joins the live allocations.
    proof fn lemma_wf_after_pop(&self, pre: Self, c: int, b: usize, size: int, align: int)
        requires
            pre.wf(),
            0 <= c < BLOCK_SIZE_COUNT,
            size > 0,
            list_index_spec(size, align) == Some(c),
            size <= block_size_spec(c),
            pre.list_heads@[c]@.len() > 0,
            b == pre.list_heads@[c]@.last(),
            self.list_heads@.len() == pre.list_heads@.len(),
            self.list_heads@[c]@ == pre.list_heads@[c]@.drop_last(),
            forall|c2: int|
                0 <= c2 < pre.list_heads@.len() && c2 != c ==> (#[trigger] self.list_heads@[c2])@
                    == (#[trigger] pre.list_heads@[c2])@,
            self.fallback_allocator == pre.fallback_allocator,
            self.live@ == pre.live@.insert((b as int, size, align)),
        ensures
            self.wf(),
    {
        assert forall|c2: int, k2: int|
            0 <= c2 < self.list_heads@.len() && 0 <= k2 < self.list_heads@[c2]@.len() implies {
            &&& self.fallback_allocator.live@.contains(
                (self.list_heads@[c2]@[k2] as int, block_size_spec(c2)),
            )
            &&& self.list_heads@[c2]@[k2] as int % block_size_spec(c2) == 0
        } by {
            assert(self.list_heads@[c2]@[k2] == pre.list_heads@[c2]@[k2]);
        }
        assert forall|c1: int, k1: int, c2: int, k2: int|
            #![trigger self.list_heads@[c1]@[k1], self.list_heads@[c2]@[k2]]
            0 <= c1 < self.list_heads@.len() && 0 <= k1 < self.list_heads@[c1]@.len() && 0 <= c2
                < self.list_heads@.len() && 0 <= k2 < self.list_heads@[c2]@.len() && (c1 != c2 || k1
                != k2) implies self.list_heads@[c1]@[k1] != self.list_heads@[c2]@[k2] by {
            assert(self.list_heads@[c1]@[k1] == pre.list_heads@[c1]@[k1]);
            assert(self.list_heads@[c2]@[k2] == pre.list_heads@[c2]@[k2]);
        }
        assert forall|r: (int, int, int)| #[trigger] self.live@.contains(r) implies {
            &&& r.1 > 0
            &&& r.1 <= backing_size(r.1, r.2)
            &&& self.fallback_allocator.live@.contains((r.0, backing_size(r.1, r.2)))
            &&& match list_index_spec(r.1, r.2) {
                Some(c3) => r.0 % block_size_spec(c3) == 0,
                None => r.0 % r.2 == 0,
            }
            &&& forall|c2: int, k2: int|
                0 <= c2 < self.list_heads@.len() && 0 <= k2 < self.list_heads@[c2]@.len() ==> (
                #[trigger] self.list_heads@[c2]@[k2]) as int != r.0
        } by {
            if r == ((b as int, size, align)) {
                assert(pre.list_heads@[c]@[pre.list_heads@[c]@.len() - 1] == b);
                assert(pre.fallback_allocator.live@.contains((b as int, block_size_spec(c))));
                assert(b as int % block_size_spec(c) == 0);
                assert forall|c2: int, k2: int|
                    0 <= c2 < self.list_heads@.len() && 0 <= k2
                        < self.list_heads@[c2]@.len() implies (#[trigger] self.list_heads@[c2]@[k2])
                    as int != r.0 by {
                    assert(self.list_heads@[c2]@[k2] == pre.list_heads@[c2]@[k2]);
                    assert(pre.list_heads@[c2]@[k2] != pre.list_heads@[c]@[pre.list_heads@[c]@.len()
                        - 1]);
                }
            } else {
                assert(pre.live@.contains(r));
                assert forall|c2: int, k2: int|
                    0 <= c2 < self.list_heads@.len() && 0 <= k2
                        < self.list_heads@[c2]@.len() implies (#[trigger] self.list_heads@[c2]@[k2])
                    as int != r.0 by {
                    assert(self.list_heads@[c2]@[k2] == pre.list_heads@[c2]@[k2]);
                }
            }
        }
        assert forall|r1: (int, int, int), r2: (int, int, int)|
            #[trigger] self.live@.contains(r1) && #[trigger] self.live@.contains(r2) && r1
                != r2 implies r1.0 != r2.0 by {
            let newr = (b as int, size, align);
            if r1 == newr || r2 == newr {
                let o = if r1 == newr {
                    r2
                } else {
                    r1
                };
                assert(pre.live@.contains(o));
                assert(pre.list_heads@[c]@[pre.list_heads@[c]@.len() - 1] as int != o.0);
            }
        }
    }

    /// A block carved fresh from the fallback keeps the allocator well
    /// formed: its address is new to every class list and every live
    /// allocation.
    proof fn lemma_wf_after_fresh(&self, pre: Self, b: int, bs: int, size: int, align: int)
        requires
            pre.wf(),
            size > 0,
            size <= bs,
            bs == backing_size(size, align),
            heads_eq(pre.list_heads@, self.list_heads@),
            pre.fallback_allocator.wf(),
            self.fallback_allocator.wf(),
            allocate_effect(
                pre.fallback_allocator,
                self.fallback_allocator,
                bs,
                if list_index_spec(size, align) is Some {
                    bs
                } else {
                    align
                },
                Some(b as usize),
            ),
            b == b as usize as int,
            match list_index_spec(size, align) {
                Some(c) => b % block_size_spec(c) == 0,
                None => b % align == 0,
            },
            self.live@ == pre.live@.insert((b, size, align)),
        ensures
            self.wf(),
    {
        let fb_pre = pre.fallback_allocator;
        let fb_post = self.fallback_allocator;
        // the fresh block was free before, so it is nobody's address
        assert(crate::allocator::linked_list::covers(fb_pre.nodes(), b));
        assert forall|c2: int, k2: int|
            0 <= c2 < self.list_heads@.len() && 0 <= k2 < self.list_heads@[c2]@.len() implies {
            &&& self.fallback_allocator.live@.contains(
                (self.list_heads@[c2]@[k2] as int, block_size_spec(c2)),
            )
            &&& self.list_heads@[c2]@[k2] as int % block_size_spec(c2) == 0
        } by {
            assert(self.list_heads@[c2]@[k2] == pre.list_heads@[c2]@[k2]);
            let e = (pre.list_heads@[c2]@[k2] as int, block_size_spec(c2));
            assert(fb_pre.live@.contains(e));
            assert(fb_post.live@.contains(e));
        }
        assert forall|c1: int, k1: int, c2: int, k2: int|
            #![trigger self.list_heads@[c1]@[k1], self.list_heads@[c2]@[k2]]
            0 <= c1 < self.list_heads@.len() && 0 <= k1 < self.list_heads@[c1]@.len() && 0 <= c2
                < self.list_heads@.len() && 0 <= k2 < self.list_heads@[c2]@.len() && (c1 != c2 || k1
                != k2) implies self.list_heads@[c1]@[k1] != self.list_heads@[c2]@[k2] by {
            assert(self.list_heads@[c1]@[k1] == pre.list_heads@[c1]@[k1]);
            assert(self.list_heads@[c2]@[k2] == pre.list_heads@[c2]@[k2]);
        }
        assert forall|r: (int, int, int)| #[trigger] self.live@.contains(r) implies {
            &&& r.1 > 0
            &&& r.1 <= backing_size(r.1, r.2)
            &&& self.fallback_allocator.live@.contains((r.0, backing_size(r.1, r.2)))
            &&& match list_index_spec(r.1, r.2) {
                Some(c3) => r.0 % block_size_spec(c3) == 0,
                None => r.0 % r.2 == 0,
            }
            &&& forall|c2: int, k2: int|
                0 <= c2 < self.list_heads@.len() && 0 <= k2 < self.list_heads@[c2]@.len() ==> (
                #[trigger] self.list_heads@[c2]@[k2]) as int != r.0
        } by {
            if r == ((b, size, align)) {
                assert(fb_post.live@.contains((b, bs)));
                assert forall|c2: int, k2: int|
                    0 <= c2 < self.list_heads@.len() && 0 <= k2
                        < self.list_heads@[c2]@.len() implies (#[trigger] self.list_heads@[c2]@[k2])
                    as int != r.0 by {
                    assert(self.list_heads@[c2]@[k2] == pre.list_heads@[c2]@[k2]);
                    let e = (pre.list_heads@[c2]@[k2] as int, block_size_spec(c2));
                    assert(fb_pre.live@.contains(e));
                    // a parked block avoids the free regions; the
                    // fresh block came from one
                    if e.0 == b {
                        assert(!crate::allocator::linked_list::covers(fb_pre.nodes(), b));
                        assert(false);
                    }
                }
            } else {
                assert(pre.live@.contains(r));
                let e = (r.0, backing_size(r.1, r.2));
                assert(fb_pre.live@.contains(e));
                assert(fb_post.live@.contains(e));
                assert forall|c2: int, k2: int|
                    0 <= c2 < self.list_heads@.len() && 0 <= k2
                        < self.list_heads@[c2]@.len() implies (#[trigger] self.list_heads@[c2]@[k2])
                    as int != r.0 by {
                    assert(self.list_heads@[c2]@[k2] == pre.list_heads@[c2]@[k2]);
                }
            }
        }
        assert forall|r1: (int, int, int), r2: (int, int, int)|
            #[trigger] self.live@.contains(r1) && #[trigger] self.live@.contains(r2) && r1
                != r2 implies r1.0 != r2.0 by {
            let newr = (b, size, align);
            if r1 == newr || r2 == newr {
                let o = if r1 == newr {
                    r2
                } else {
                    r1
                };
                assert(pre.live@.contains(o));
                let e = (o.0, backing_size(o.1, o.2));
                assert(fb_pre.live@.contains(e));
                if o.0 == b {
                    assert(o.1 > 0);
                    assert(!crate::allocator::linked_list::covers(fb_pre.nodes(), b));
                    assert(false);
                }
            }
        }
    }

    /// Give an allocation back: a class-sized block is parked on its
    /// class's free list in O(1) with no coalescing; anything beyond
    /// the largest class returns to the coalescing fallback. The check
    /// that a class block can hold its free-list link cell — a fatal
    /// misconfiguration in a running kernel — is discharged here once
    /// and for all, since every class is at least `FREE_NODE_BYTES`.
    pub fn deallocate(&mut self, addr: usize, size: usize, align: usize)
        requires
            old(self).wf(),
            old(self).live@.contains((addr as int, size as int, align as int)),
        ensures
            final(self).wf(),
            final(self).live@ == old(self).live@.remove((addr as int, size as int, align as int)),
            match list_index_spec(size as int, align as int) {
                Some(c) => {
                    &&& heads_eq_except(old(self).list_heads@, final(self).list_heads@, c)
                    &&& final(self).list_heads@[c]@ == old(self).list_heads@[c]@.push(addr)
                    &&& final(self).fallback_allocator == old(self).fallback_allocator
                },
                None => {
                    &&& heads_eq(old(self).list_heads@, final(self).list_heads@)
                    &&& deallocate_effect(
                        old(self).fallback_allocator,
                        final(self).fallback_allocator,
                        addr as int,
                        size as int,
                    )
                },
            },
    {
        proof {
            lemma_list_index_selects_smallest(size as int, align as int);
            assert(old(self).live@.contains((addr as int, size as int, align as int)));
        }
        match list_index(size, align) {
            Some(index) => {
                proof {
                    // the invariant the original asserts fatally at
                    // run time: the class can hold the link cell
                    assert(FREE_NODE_BYTES <= block_size_spec(index as int));
                }
                vec_index_mut(&mut self.list_heads, index).push(addr);
                self.live = Ghost(
                    self.live@.remove((addr as int, size as int, align as int)),
                );
                proof {
                    self.lemma_wf_after_park(
                        *old(self),
                        index as int,
                        addr,
                        size as int,
                        align as int,
                    );
                }
            },
            None => {
                self.fallback_allocator.deallocate(addr, size, align);
                self.live = Ghost(
                    self.live@.remove((addr as int, size as int, align as int)),
                );
                proof {
                    assert(self.list_heads@ =~= old(self).list_heads@);
                    self.lemma_wf_after_return(*old(self), addr as int, size as int, align as int);
                }
            },
        }
    }

    /// Parking a freed class block keeps the allocator well formed:
    /// the block moves from the live allocations onto its class list.
    proof fn lemma_wf_after_park(&self, pre: Self, c: int, addr: usize, size: int, align: int)
        requires
            pre.wf(),
            0 <= c < BLOCK_SIZE_COUNT,
            pre.live@.contains((addr as int, size, align)),
            list_index_spec(size, align) == Some(c),
            self.list_heads@.len() == pre.list_heads@.len(),
            self.list_heads@[c]@ == pre.list_heads@[c]@.push(addr),
            forall|c2: int|
                0 <= c2 < pre.list_heads@.len() && c2 != c ==> (#[trigger] self.list_heads@[c2])@
                    == (#[trigger] pre.list_heads@[c2])@,
            self.fallback_allocator == pre.fallback_allocator,
            self.live@ == pre.live@.remove((addr as int, size, align)),
        ensures
            self.wf(),
    {
        let newk = pre.list_heads@[c]@.len() as int;
        assert(self.list_heads@[c]@[newk] == addr);
        assert(pre.fallback_allocator.live@.contains((addr as int, block_size_spec(c))));
        assert(addr as int % block_size_spec(c) == 0);
        assert forall|c2: int, k2: int|
            0 <= c2 < self.list_heads@.len() && 0 <= k2 < self.list_heads@[c2]@.len() implies {
            &&& self.fallback_allocator.live@.contains(
                (self.list_heads@[c2]@[k2] as int, block_size_spec(c2)),
            )
            &&& self.list_heads@[c2]@[k2] as int % block_size_spec(c2) == 0
        } by {
            if c2 == c && k2 == newk {
            } else {
                assert(self.list_heads@[c2]@[k2] == pre.list_heads@[c2]@[k2]);
            }
        }
        assert forall|c1: int, k1: int, c2: int, k2: int|
            #![trigger self.list_heads@[c1]@[k1], self.list_heads@[c2]@[k2]]
            0 <= c1 < self.list_heads@.len() && 0 <= k1 < self.list_heads@[c1]@.len() && 0 <= c2
                < self.list_heads@.len() && 0 <= k2 < self.list_heads@[c2]@.len() && (c1 != c2 || k1
                != k2) implies self.list_heads@[c1]@[k1] != self.list_heads@[c2]@[k2] by {
            if c1 == c && k1 == newk {
                assert(self.list_heads@[c2]@[k2] == pre.list_heads@[c2]@[k2]);
                assert(pre.list_heads@[c2]@[k2] as int != addr as int);
            } else if c2 == c && k2 == newk {
                assert(self.list_heads@[c1]@[k1] == pre.list_heads@[c1]@[k1]);
                assert(pre.list_heads@[c1]@[k1] as int != addr as int);
            } else {
                assert(self.list_heads@[c1]@[k1] == pre.list_heads@[c1]@[k1]);
                assert(self.list_heads@[c2]@[k2] == pre.list_heads@[c2]@[k2]);
            }
        }
        assert forall|r: (int, int, int)| #[trigger] self.live@.contains(r) implies {
            &&& r.1 > 0
            &&& r.1 <= backing_size(r.1, r.2)
            &&& self.fallback_allocator.live@.contains((r.0, backing_size(r.1, r.2)))
            &&& match list_index_spec(r.1, r.2) {
                Some(c3) => r.0 % block_size_spec(c3) == 0,
                None => r.0 % r.2 == 0,
            }
            &&& forall|c2: int, k2: int|
                0 <= c2 < self.list_heads@.len() && 0 <= k2 < self.list_heads@[c2]@.len() ==> (
                #[trigger] self.list_heads@[c2]@[k2]) as int != r.0
        } by {
            assert(pre.live@.contains(r));
            assert(r != ((addr as int, size, align)));
            assert forall|c2: int, k2: int|
                0 <= c2 < self.list_heads@.len() && 0 <= k2 < self.list_heads@[c2]@.len() implies (
                #[trigger] self.list_heads@[c2]@[k2]) as int != r.0 by {
                if c2 == c && k2 == newk {
                    // the parked block's address was the freed
                    // allocation's own, distinct from every other
                    assert(r.0 != addr as int);
                } else {
                    assert(self.list_heads@[c2]@[k2] == pre.list_heads@[c2]@[k2]);
                }
            }
        }
    }

    /// Returning an oversized block to the fallback keeps the
    /// allocator well formed: only that block's backing leaves the
    /// fallback's live set.
    proof fn lemma_wf_after_return(&self, pre: Self, addr: int, size: int, align: int)
        requires
            pre.wf(),
            pre.live@.contains((addr, size, align)),
            list_index_spec(size, align) is None,
            heads_eq(pre.list_heads@, self.list_heads@),
            self.fallback_allocator.wf(),
            deallocate_effect(pre.fallback_allocator, self.fallback_allocator, addr, size),
            self.fallback_allocator.live@ == pre.fallback_allocator.live@.remove((addr, size)),
            self.live@ == pre.live@.remove((addr, size, align)),
        ensures
            self.wf(),
    {
        assert forall|c2: int, k2: int|
            0 <= c2 < self.list_heads@.len() && 0 <= k2 < self.list_heads@[c2]@.len() implies {
            &&& self.fallback_allocator.live@.contains(
                (self.list_heads@[c2]@[k2] as int, block_size_spec(c2)),
            )
            &&& self.list_heads@[c2]@[k2] as int % block_size_spec(c2) == 0
        } by {
            assert(self.list_heads@[c2]@[k2] == pre.list_heads@[c2]@[k2]);
            let e = (pre.list_heads@[c2]@[k2] as int, block_size_spec(c2));
            assert(pre.fallback_allocator.live@.contains(e));
            // a parked block is never a live user allocation, so it is
            // not the element being removed
            assert(pre.list_heads@[c2]@[k2] as int != addr);
        }
        assert forall|c1: int, k1: int, c2: int, k2: int|
            #![trigger self.list_heads@[c1]@[k1], self.list_heads@[c2]@[k2]]
            0 <= c1 < self.list_heads@.len() && 0 <= k1 < self.list_heads@[c1]@.len() && 0 <= c2
                < self.list_heads@.len() && 0 <= k2 < self.list_heads@[c2]@.len() && (c1 != c2 || k1
                != k2) implies self.list_heads@[c1]@[k1] != self.list_heads@[c2]@[k2] by {
            assert(self.list_heads@[c1]@[k1] == pre.list_heads@[c1]@[k1]);
            assert(self.list_heads@[c2]@[k2] == pre.list_heads@[c2]@[k2]);
        }
        assert forall|r: (int, int, int)| #[trigger] self.live@.contains(r) implies {
            &&& r.1 > 0
            &&& r.1 <= backing_size(r.1, r.2)
            &&& self.fallback_allocator.live@.contains((r.0, backing_size(r.1, r.2)))
            &&& match list_index_spec(r.1, r.2) {
                Some(c3) => r.0 % block_size_spec(c3) == 0,
                None => r.0 % r.2 == 0,
            }
            &&& forall|c2: int, k2: int|
                0 <= c2 < self.list_heads@.len() && 0 <= k2 < self.list_heads@[c2]@.len() ==> (
                #[trigger] self.list_heads@[c2]@[k2]) as int != r.0
        } by {
            assert(pre.live@.contains(r));
            assert(r != ((addr, size, align)));
            assert(r.0 != addr);
            let e = (r.0, backing_size(r.1, r.2));
            assert(pre.fallback_allocator.live@.contains(e));
            assert forall|c2: int, k2: int|
                0 <= c2 < self.list_heads@.len() && 0 <= k2 < self.list_heads@[c2]@.len() implies (
                #[trigger] self.list_heads@[c2]@[k2]) as int != r.0 by {
                assert(self.list_heads@[c2]@[k2] == pre.list_heads@[c2]@[k2]);
            }
        }
    }
}

/// No two distinct live allocations of the size-class allocator ever
/// overlap: each is backed by its own live block of the fallback
/// allocator, and those blocks are pairwise disjoint.
pub proof fn lemma_user_allocations_disjoint(
    al: FixedSizeBlockAllocator,
    r1: (int, int, int),
    r2: (int, int, int),
)
    requires
        al.wf(),
        al.live@.contains(r1),
        al.live@.contains(r2),
        r1 != r2,
    ensures
        ranges_disjoint(r1.0, r1.1, r2.0, r2.1),
{
    assert(r1.0 != r2.0);
    let b1 = (r1.0, backing_size(r1.1, r1.2));
    let b2 = (r2.0, backing_size(r2.1, r2.2));
    lemma_live_allocations_disjoint(al.fallback_allocator, b1, b2);
}

} // verus!
