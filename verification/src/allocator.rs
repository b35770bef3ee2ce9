//! A basic free-list allocator: first-fit placement over an
//! address-sorted list of free blocks, block splitting on allocation and
//! neighbour coalescing on deallocation.
//!
//! The allocator manages a region of addresses as pure bookkeeping: the
//! free list and the per-allocation headers that the kernel build writes
//! into the managed bytes themselves are held here as explicit records,
//! so every address computation can be checked.  `free` holds the free
//! blocks in ascending address order; `live` holds one record for each
//! outstanding allocation, standing for the header that precedes its
//! payload in memory.

use vstd::prelude::*;
use crate::align::{is_power_of_two, lemma_pad_for, pad_for, pad_up};
use crate::free_list::{
    block_end, blocks_sorted, find_fit, fits, free_list_bytes, insert_coalesce,
    lemma_find_fit_at, lemma_find_fit_none, lemma_find_fit_props, lemma_free_list_bytes_insert,
    lemma_free_list_bytes_nonneg, lemma_free_list_bytes_remove, lemma_free_list_bytes_singleton,
    lemma_free_list_bytes_split_bound, lemma_free_list_bytes_take_step,
    lemma_free_list_bytes_update, lemma_live_list_bytes_nonneg, lemma_live_list_bytes_push,
    lemma_live_list_bytes_remove, lemma_live_list_bytes_split_bound,
    lemma_live_list_bytes_take_step, lemma_num_before_at,
    lemma_num_before_props, live_end, live_list_bytes, merge_into_pred, merge_into_succ,
    num_before, Block, LiveBlock, HEADER_SIZE,
};

verus! {

/// A free-list heap allocator over one contiguous region.
pub struct Allocator {
    /// First address of the managed region.
    pub start: usize,
    /// Length of the managed region in bytes.
    pub size: usize,
    /// The free blocks, kept sorted by ascending start address.
    pub free: Vec<Block>,
    /// One record per outstanding allocation.
    pub live: Vec<LiveBlock>,
}

impl Allocator {
    /// One-past-the-end address of the managed region.
    pub open spec fn region_end(&self) -> int {
        self.start + self.size
    }

    /// Free block `i` lies inside the managed region.
    pub open spec fn free_in_region(&self, i: int) -> bool {
        &&& self.start <= self.free@[i].addr
        &&& block_end(self.free@[i]) <= self.region_end()
    }

    /// Allocation record `b` lies inside the region, covers at least one
    /// payload byte, and its payload pointer points just past a header
    /// stored within the block.
    pub open spec fn live_ok(&self, b: LiveBlock) -> bool {
        &&& self.start <= b.addr
        &&& live_end(b) <= self.region_end()
        &&& 1 <= b.size
        &&& b.addr + HEADER_SIZE <= b.ptr < live_end(b)
    }

    /// The free list is address-sorted, and no two free blocks touch:
    /// every pair is separated by at least one byte of allocated space.
    pub open spec fn wf_free(&self) -> bool {
        &&& forall|i: int| 0 <= i < self.free@.len() ==> #[trigger] self.free_in_region(i)
        &&& blocks_sorted(self.free@)
    }

    /// Outstanding allocations are well-placed and mutually disjoint.
    pub open spec fn wf_live(&self) -> bool {
        &&& forall|i: int|
            0 <= i < self.live@.len() ==> self.live_ok(#[trigger] self.live@[i])
        &&& forall|i: int, j: int|
            0 <= i < self.live@.len() && 0 <= j < self.live@.len() && i != j ==> (live_end(
                #[trigger] self.live@[i],
            ) <= (#[trigger] self.live@[j]).addr || live_end(self.live@[j])
                <= self.live@[i].addr)
    }

    /// No outstanding allocation overlaps a free block.
    pub open spec fn wf_disjoint(&self) -> bool {
        forall|i: int, j: int|
            0 <= i < self.live@.len() && 0 <= j < self.free@.len() ==> (live_end(
                #[trigger] self.live@[i],
            ) <= (#[trigger] self.free@[j]).addr || block_end(self.free@[j])
                <= self.live@[i].addr)
    }

    /// Every byte of the region is owned by exactly one block: the bytes
    /// of the free blocks and of the outstanding allocations (headers
    /// included on both sides) add up to the region's length.
    pub open spec fn conserved(&self) -> bool {
        free_list_bytes(self.free@) + live_list_bytes(self.live@) == self.size
    }

    /// The allocator's invariant, established by `new` and `init` and
    /// preserved by `allocate` and `deallocate`.
    pub open spec fn wf(&self) -> bool {
        &&& self.start + self.size <= usize::MAX
        &&& self.wf_free()
        &&& self.wf_live()
        &&& self.wf_disjoint()
        &&& self.conserved()
    }

    /// The allocator has not been handed a region yet.
    pub open spec fn is_uninit(&self) -> bool {
        &&& self.size == 0
        &&& self.free@.len() == 0
        &&& self.live@.len() == 0
    }

    /// The whole region is one free block and nothing is allocated:
    /// the state right after `init`, or after every allocation has been
    /// returned and coalesced.
    pub open spec fn is_single_free_block(&self) -> bool {
        &&& HEADER_SIZE <= self.size
        &&& self.free@ =~= seq![
            Block { addr: self.start, size: (self.size - HEADER_SIZE) as usize },
        ]
        &&& self.live@.len() == 0
    }

    /// Creates a new empty allocator.  It owns no region, so every
    /// allocation fails until `init` is called.
    pub fn new() -> (a: Allocator)
        ensures
            a.is_uninit(),
            a.start == 0,
            a.wf(),
    {
        let a = Allocator { start: 0, size: 0, free: Vec::new(), live: Vec::new() };
        proof {
            assert(free_list_bytes(a.free@) == 0);
            assert(live_list_bytes(a.live@) == 0);
        }
        a
    }

    /// Initializes the allocator with a memory region: the whole region
    /// becomes a single free block whose payload is everything after its
    /// header.
    ///
    /// The caller must ensure the region is valid, unused and not handed
    /// to anything else, and must initialize each allocator exactly once;
    /// neither is checked at run time.
    pub fn init(&mut self, start: usize, size: usize)
        requires
            old(self).is_uninit(),
            HEADER_SIZE <= size,
            start + size <= usize::MAX,
        ensures
            final(self).start == start,
            final(self).size == size,
            final(self).is_single_free_block(),
            final(self).wf(),
    {
        self.start = start;
        self.size = size;
        let initial = Block { addr: start, size: size - HEADER_SIZE };
        self.free.push(initial);
        proof {
            assert(self.free@ =~= seq![initial]);
            lemma_free_list_bytes_singleton(initial);
            assert(live_list_bytes(self.live@) == 0);
        }
    }
    /// Index of the first free block that can serve the request, walking
    /// the list from the head.
    fn first_fit_index(&self, size: usize, align: usize) -> (r: Option<usize>)
        requires
            self.wf(),
            1 <= size,
            is_power_of_two(align as int),
        ensures
            match r {
                Some(i) => i < self.free@.len() && find_fit(
                    self.free@,
                    size as int,
                    align as int,
                ) == Some(i as int),
                None => find_fit(self.free@, size as int, align as int) is None,
            },
    {
        let mut idx: usize = 0;
        while idx < self.free.len()
            invariant
                self.wf(),
                1 <= size,
                is_power_of_two(align as int),
                idx <= self.free@.len(),
                forall|j: int|
                    0 <= j < idx ==> !fits(#[trigger] self.free@[j], size as int, align as int),
            decreases self.free@.len() - idx,
        {
            let b = self.free[idx];
            proof {
                assert(self.free_in_region(idx as int));
            }
            let base = b.addr + HEADER_SIZE;
            let pad = pad_up(base, align);
            if b.size >= pad && b.size - pad >= size {
                proof {
                    lemma_find_fit_at(self.free@, size as int, align as int, idx as int);
                }
                return Some(idx);
            }
            idx = idx + 1;
        }
        proof {
            lemma_find_fit_none(self.free@, size as int, align as int);
        }
        None
    }
}

/// Relates the allocator's state after `allocate(size, align)` returned
/// `r` to its state before the call: either no free block could serve
/// the request and nothing changed, or the first usable block was carved
/// up.  In the latter case the payload lands at the first address past a
/// header that satisfies the alignment; the block is split when the tail
/// that remains can hold a header, and is consumed whole otherwise.
pub open spec fn allocate_post(
    pre: Allocator,
    post: Allocator,
    size: int,
    align: int,
    r: Option<usize>,
) -> bool {
    &&& post.start == pre.start
    &&& post.size == pre.size
    &&& match find_fit(pre.free@, size, align) {
        None => {
            &&& r is None
            &&& post.free@ == pre.free@
            &&& post.live@ == pre.live@
        },
        Some(i) => {
            let b = pre.free@[i];
            let pad = pad_for(b.addr + HEADER_SIZE, align);
            let needed = pad + size;
            let p = b.addr + HEADER_SIZE + pad;
            let split = needed + HEADER_SIZE <= b.size;
            let consumed: int = if split {
                needed
            } else {
                b.size as int
            };
            &&& r == Some(p as usize)
            &&& post.live@ == pre.live@.push(
                LiveBlock { addr: b.addr, ptr: p as usize, size: consumed as usize },
            )
            &&& post.free@ == (if split {
                pre.free@.update(
                    i,
                    Block {
                        addr: (b.addr + HEADER_SIZE + needed) as usize,
                        size: (b.size - needed - HEADER_SIZE) as usize,
                    },
                )
            } else {
                pre.free@.remove(i)
            })
        },
    }
}

impl Allocator {
    /// Allocates `size` bytes at alignment `align` and returns the
    /// payload address, or returns nothing when no free block is large
    /// enough (the out-of-memory case, which the caller decides how to
    /// handle).
    ///
    /// The returned address is aligned, lies inside the managed region,
    /// and its block overlaps no other outstanding allocation.
    pub fn allocate(&mut self, size: usize, align: usize) -> (r: Option<usize>)
        requires
            old(self).wf(),
            1 <= size,
            is_power_of_two(align as int),
        ensures
            final(self).wf(),
            allocate_post(*old(self), *final(self), size as int, align as int, r),
            (r matches Some(p) ==> (p as int) % (align as int) == 0),
            (r matches Some(p) ==> old(self).start + HEADER_SIZE <= p && p + size
                <= old(self).region_end()),
            (r is None ==> *final(self) == *old(self)),
    {
        let ghost fl0 = self.free@;
        match self.first_fit_index(size, align) {
            None => {
                None
            },
            Some(idx) => {
                let b = self.free[idx];
                proof {
                    assert(self.free_in_region(idx as int));
                    lemma_find_fit_props(fl0, size as int, align as int);
                    assert(fits(b, size as int, align as int));
                    lemma_pad_for(b.addr + HEADER_SIZE, align as int);
                }
                let base = b.addr + HEADER_SIZE;
                let pad = pad_up(base, align);
                let needed = pad + size;
                let ptr = base + pad;
                let split = b.size - needed >= HEADER_SIZE;
                let consumed = if split {
                    needed
                } else {
                    b.size
                };
                if split {
                    self.free.set(
                        idx,
                        Block { addr: base + needed, size: b.size - needed - HEADER_SIZE },
                    );
                } else {
                    self.free.remove(idx);
                }
                let rec = LiveBlock { addr: b.addr, ptr, size: consumed };
                self.live.push(rec);
                proof {
                    assert(allocate_post(
                        *old(self),
                        *self,
                        size as int,
                        align as int,
                        Some(ptr),
                    ));
                    lemma_allocate_wf(*old(self), *self, size as int, align as int, Some(ptr));
                }
                Some(ptr)
            },
        }
    }
}

/// `ptr` is the payload pointer of one of the outstanding allocations.
pub open spec fn is_live_ptr(a: Allocator, ptr: usize) -> bool {
    exists|i: int| 0 <= i < a.live@.len() && (#[trigger] a.live@[i]).ptr == ptr
}

/// Index of the allocation record whose payload pointer is `ptr`.
pub open spec fn find_live(s: Seq<LiveBlock>, ptr: usize) -> Option<int>
    decreases s.len(),
{
    if s.len() == 0 {
        None
    } else if s[0].ptr == ptr {
        Some(0int)
    } else {
        match find_live(s.skip(1), ptr) {
            Some(i) => Some(i + 1),
            None => None,
        }
    }
}

/// `find_live` returns exactly the first index holding `ptr`.
pub proof fn lemma_find_live_at(s: Seq<LiveBlock>, ptr: usize, i: int)
    requires
        0 <= i < s.len(),
        s[i].ptr == ptr,
        forall|k: int| 0 <= k < i ==> (#[trigger] s[k]).ptr != ptr,
    ensures
        find_live(s, ptr) == Some(i),
    decreases s.len(),
{
    if i == 0 {
    } else {
        assert(s[0].ptr != ptr);
        assert(s.skip(1)[i - 1] == s[i]);
        assert(forall|k: int| 0 <= k < i - 1 ==> s.skip(1)[k] == s[k + 1]);
        lemma_find_live_at(s.skip(1), ptr, i - 1);
    }
}

/// Relates the allocator's state after `deallocate(ptr, ..)` to its
/// state before the call: the allocation record owning `ptr` disappears
/// and its whole block (header, padding, payload and slack) rejoins the
/// free list at its address-sorted position, merged with whichever
/// neighbours touch it.
pub open spec fn deallocate_post(pre: Allocator, post: Allocator, ptr: usize) -> bool {
    &&& post.start == pre.start
    &&& post.size == pre.size
    &&& match find_live(pre.live@, ptr) {
        None => {
            &&& post.free@ == pre.free@
            &&& post.live@ == pre.live@
        },
        Some(i) => {
            let rec = pre.live@[i];
            &&& post.live@ == pre.live@.remove(i)
            &&& post.free@ == insert_coalesce(
                pre.free@,
                Block { addr: rec.addr, size: rec.size },
            )
        },
    }
}

/// Well-formedness depends only on the allocator's fields: two states
/// with the same region and the same lists are equally well-formed.
pub proof fn lemma_wf_same_fields(a: Allocator, b: Allocator)
    requires
        a.wf(),
        b.start == a.start,
        b.size == a.size,
        b.free@ == a.free@,
        b.live@ == a.live@,
    ensures
        b.wf(),
{
    assert forall|i: int| 0 <= i < b.free@.len() implies #[trigger] b.free_in_region(i) by {
        assert(a.free_in_region(i));
    }
    assert forall|i: int| 0 <= i < b.live@.len() implies b.live_ok(#[trigger] b.live@[i]) by {
        assert(a.live_ok(a.live@[i]));
    }
}

/// The transition described by `allocate_post` preserves the allocator's
/// invariant.
pub proof fn lemma_allocate_wf(
    pre: Allocator,
    post: Allocator,
    size: int,
    align: int,
    r: Option<usize>,
)
    requires
        pre.wf(),
        1 <= size,
        is_power_of_two(align),
        allocate_post(pre, post, size, align, r),
    ensures
        post.wf(),
{
    lemma_find_fit_props(pre.free@, size, align);
    match find_fit(pre.free@, size, align) {
        None => {
            lemma_wf_same_fields(pre, post);
        },
        Some(i) => {
            let b = pre.free@[i];
            assert(pre.free_in_region(i));
            lemma_pad_for(b.addr + HEADER_SIZE, align);
            let pad = pad_for(b.addr + HEADER_SIZE, align);
            let needed = pad + size;
            let p = b.addr + HEADER_SIZE + pad;
            let split = needed + HEADER_SIZE <= b.size;
            let consumed: int = if split {
                needed
            } else {
                b.size as int
            };
            let rec = LiveBlock { addr: b.addr, ptr: p as usize, size: consumed as usize };
            let newb = Block {
                addr: (b.addr + HEADER_SIZE + needed) as usize,
                size: (b.size - needed - HEADER_SIZE) as usize,
            };

            // Accounting: the consumed bytes move from the free side to
            // the live side.
            if split {
                lemma_free_list_bytes_update(pre.free@, i, newb);
            } else {
                lemma_free_list_bytes_remove(pre.free@, i);
            }
            lemma_live_list_bytes_push(pre.live@, rec);
            assert(post.conserved());

            // Every free block still lies inside the region.
            assert forall|k: int| 0 <= k < post.free@.len() implies #[trigger] post.free_in_region(
                k,
            ) by {
                if split {
                    assert(pre.free_in_region(k));
                } else {
                    if k < i {
                        assert(pre.free_in_region(k));
                    } else {
                        assert(pre.free_in_region(k + 1));
                    }
                }
            }

            // The free list stays sorted and gap-separated: the remainder
            // block begins past the consumed bytes and ends where the old
            // block ended.
            assert forall|k: int, l: int| 0 <= k < l < post.free@.len() implies block_end(
                #[trigger] post.free@[k],
            ) < (#[trigger] post.free@[l]).addr by {
                if split {
                    assert(block_end(pre.free@[k]) < pre.free@[l].addr);
                } else {
                    let k2: int = if k < i {
                        k
                    } else {
                        k + 1
                    };
                    let l2: int = if l < i {
                        l
                    } else {
                        l + 1
                    };
                    assert(block_end(pre.free@[k2]) < pre.free@[l2].addr);
                }
            }

            // Every allocation record is well-placed; the new one lives
            // inside the block it was carved from.
            assert forall|k: int| 0 <= k < post.live@.len() implies post.live_ok(
                #[trigger] post.live@[k],
            ) by {
                if k < pre.live@.len() {
                    assert(pre.live_ok(pre.live@[k]));
                }
            }

            // The new allocation is disjoint from all others because its
            // bytes come out of a free block, which overlapped nothing.
            assert forall|k: int, l: int|
                0 <= k < post.live@.len() && 0 <= l < post.live@.len() && k != l implies (live_end(
                #[trigger] post.live@[k],
            ) <= (#[trigger] post.live@[l]).addr || live_end(post.live@[l])
                <= post.live@[k].addr) by {
                let n = pre.live@.len() as int;
                if k < n && l < n {
                    assert(live_end(pre.live@[k]) <= pre.live@[l].addr || live_end(pre.live@[l])
                        <= pre.live@[k].addr);
                } else if k < n {
                    assert(live_end(pre.live@[k]) <= pre.free@[i].addr || block_end(pre.free@[i])
                        <= pre.live@[k].addr);
                } else if l < n {
                    assert(live_end(pre.live@[l]) <= pre.free@[i].addr || block_end(pre.free@[i])
                        <= pre.live@[l].addr);
                }
            }

            // Allocations stay disjoint from the shrunken free list.
            assert forall|k: int, l: int|
                0 <= k < post.live@.len() && 0 <= l < post.free@.len() implies (live_end(
                #[trigger] post.live@[k],
            ) <= (#[trigger] post.free@[l]).addr || block_end(post.free@[l])
                <= post.live@[k].addr) by {
                let n = pre.live@.len() as int;
                let l2: int = if split || l < i {
                    l
                } else {
                    l + 1
                };
                if k < n {
                    assert(live_end(pre.live@[k]) <= pre.free@[l2].addr || block_end(pre.free@[l2])
                        <= pre.live@[k].addr);
                    if split && l == i {
                        assert(live_end(pre.live@[k]) <= pre.free@[i].addr || block_end(
                            pre.free@[i],
                        ) <= pre.live@[k].addr);
                    }
                } else {
                    // The new record against an old block: the old block
                    // is on one side of the consumed block.
                    if l2 != i {
                        if l2 < i {
                            assert(block_end(pre.free@[l2]) < pre.free@[i].addr);
                        } else {
                            assert(block_end(pre.free@[i]) < pre.free@[l2].addr);
                        }
                    }
                }
            }
        },
    }
}

impl Allocator {
    /// Number of blocks on the free list.
    pub fn free_count(&self) -> (n: usize)
        ensures
            n == self.free@.len(),
    {
        self.free.len()
    }

    /// The free block at position `i` of the address-sorted list.
    pub fn free_block_at(&self, i: usize) -> (b: Block)
        requires
            i < self.free@.len(),
        ensures
            b == self.free@[i as int],
    {
        self.free[i]
    }

    /// Number of outstanding allocations.
    pub fn live_count(&self) -> (n: usize)
        ensures
            n == self.live@.len(),
    {
        self.live.len()
    }

    /// Bytes occupied by the free list, headers included.
    pub fn free_bytes(&self) -> (n: usize)
        requires
            self.wf(),
        ensures
            n == free_list_bytes(self.free@),
    {
        proof {
            lemma_live_list_bytes_nonneg(self.live@);
        }
        let mut n: usize = 0;
        let mut i: usize = 0;
        while i < self.free.len()
            invariant
                self.wf(),
                i <= self.free@.len(),
                n == free_list_bytes(self.free@.take(i as int)),
                n <= self.size,
            decreases self.free@.len() - i,
        {
            proof {
                lemma_free_list_bytes_take_step(self.free@, i as int);
                lemma_free_list_bytes_split_bound(self.free@, i as int + 1);
                lemma_live_list_bytes_nonneg(self.live@);
            }
            n = n + HEADER_SIZE + self.free[i].size;
            i = i + 1;
        }
        proof {
            assert(self.free@.take(self.free@.len() as int) =~= self.free@);
        }
        n
    }

    /// Bytes occupied by outstanding allocations, headers included.
    pub fn live_bytes(&self) -> (n: usize)
        requires
            self.wf(),
        ensures
            n == live_list_bytes(self.live@),
    {
        proof {
            lemma_free_list_bytes_nonneg(self.free@);
        }
        let mut n: usize = 0;
        let mut i: usize = 0;
        while i < self.live.len()
            invariant
                self.wf(),
                i <= self.live@.len(),
                n == live_list_bytes(self.live@.take(i as int)),
                n <= self.size,
            decreases self.live@.len() - i,
        {
            proof {
                lemma_live_list_bytes_take_step(self.live@, i as int);
                lemma_live_list_bytes_split_bound(self.live@, i as int + 1);
                lemma_free_list_bytes_nonneg(self.free@);
            }
            n = n + HEADER_SIZE + self.live[i].size;
            i = i + 1;
        }
        proof {
            assert(self.live@.take(self.live@.len() as int) =~= self.live@);
        }
        n
    }

    /// Index of the allocation record owning payload pointer `ptr`.
    fn find_live_index(&self, ptr: usize) -> (r: usize)
        requires
            is_live_ptr(*self, ptr),
        ensures
            r < self.live@.len(),
            self.live@[r as int].ptr == ptr,
            find_live(self.live@, ptr) == Some(r as int),
    {
        let mut li: usize = 0;
        while li < self.live.len() && self.live[li].ptr != ptr
            invariant
                li <= self.live@.len(),
                is_live_ptr(*self, ptr),
                forall|k: int| 0 <= k < li ==> (#[trigger] self.live@[k]).ptr != ptr,
            decreases self.live@.len() - li,
        {
            li = li + 1;
        }
        proof {
            if li >= self.live@.len() {
                let w = choose|i: int|
                    0 <= i < self.live@.len() && (#[trigger] self.live@[i]).ptr == ptr;
                assert(self.live@[w].ptr != ptr);
            }
            lemma_find_live_at(self.live@, ptr, li as int);
        }
        li
    }

    /// Position in the sorted free list where a block starting at `addr`
    /// belongs: past every block that starts below it.
    fn insertion_index(&self, addr: usize) -> (j: usize)
        requires
            blocks_sorted(self.free@),
        ensures
            j <= self.free@.len(),
            j == num_before(self.free@, addr as int),
            forall|k: int| 0 <= k < j ==> (#[trigger] self.free@[k]).addr < addr,
            j < self.free@.len() ==> self.free@[j as int].addr >= addr,
    {
        let mut j: usize = 0;
        while j < self.free.len() && self.free[j].addr < addr
            invariant
                j <= self.free@.len(),
                forall|k: int| 0 <= k < j ==> (#[trigger] self.free@[k]).addr < addr,
            decreases self.free@.len() - j,
        {
            j = j + 1;
        }
        proof {
            lemma_num_before_at(self.free@, addr as int, j as int);
        }
        j
    }

    /// Releases the allocation that owns payload pointer `ptr`.
    ///
    /// `ptr` must have been returned by a prior successful `allocate`
    /// with this exact size and alignment on this same instance; this is
    /// the caller's responsibility and is not checked at run time.  The
    /// header record stores the block's true extent (including folded
    /// padding and tail slack), so the size and alignment arguments are
    /// accepted only to mirror the runtime's two-operation contract and
    /// are not consulted.  The freed block is spliced into the
    /// address-sorted free list and merged with each immediate neighbour
    /// it touches, so no two free blocks are ever left adjacent.
    /// Deallocation cannot fail.
    pub fn deallocate(&mut self, ptr: usize, _size: usize, _align: usize)
        requires
            old(self).wf(),
            is_live_ptr(*old(self), ptr),
        ensures
            final(self).wf(),
            deallocate_post(*old(self), *final(self), ptr),
    {
        let ghost pre = *old(self);
        let li = self.find_live_index(ptr);
        let rec = self.live[li];
        self.live.remove(li);
        let j = self.insertion_index(rec.addr);

        proof {
            assert(pre.live_ok(rec));
            lemma_deallocate_gaps(pre, li as int, j as int);
            if j > 0 {
                assert(pre.free_in_region(j - 1));
            }
            if (j as int) < pre.free@.len() {
                assert(pre.free_in_region(j as int));
            }
        }

        let b = Block { addr: rec.addr, size: rec.size };
        let pred_adj: bool = if j > 0 {
            let p = self.free[j - 1];
            p.addr + HEADER_SIZE + p.size == rec.addr
        } else {
            false
        };
        let succ_adj: bool = if j < self.free.len() {
            rec.addr + HEADER_SIZE + rec.size == self.free[j].addr
        } else {
            false
        };

        if pred_adj && succ_adj {
            let p = self.free[j - 1];
            let n = self.free[j];
            self.free.set(
                j - 1,
                Block { addr: p.addr, size: p.size + HEADER_SIZE + b.size + HEADER_SIZE + n.size },
            );
            self.free.remove(j);
        } else if pred_adj {
            let p = self.free[j - 1];
            self.free.set(j - 1, Block { addr: p.addr, size: p.size + HEADER_SIZE + b.size });
        } else if succ_adj {
            let n = self.free[j];
            self.free.set(j, Block { addr: b.addr, size: b.size + HEADER_SIZE + n.size });
        } else {
            self.free.insert(j, b);
        }

        proof {
            assert(self.free@ == insert_coalesce(pre.free@, b));
            assert(deallocate_post(pre, *self, ptr));
            lemma_deallocate_wf(pre, *self, ptr);
        }
    }
}

/// In a well-formed allocator, the block of allocation record `li` fits
/// in the gap at its sorted position in the free list: every free block
/// before position `j` ends at or below the record's start, and every
/// free block from `j` on starts at or above the record's end.
proof fn lemma_deallocate_gaps(pre: Allocator, li: int, j: int)
    requires
        pre.wf(),
        0 <= li < pre.live@.len(),
        j == num_before(pre.free@, pre.live@[li].addr as int),
    ensures
        0 <= j <= pre.free@.len(),
        forall|k: int|
            0 <= k < j ==> block_end(#[trigger] pre.free@[k]) <= pre.live@[li].addr,
        forall|k: int|
            j <= k < pre.free@.len() ==> live_end(pre.live@[li]) <= (#[trigger] pre.free@[k]).addr,
{
    let rec = pre.live@[li];
    assert(pre.live_ok(rec));
    lemma_num_before_props(pre.free@, rec.addr as int);
    assert forall|k: int| 0 <= k < j implies block_end(#[trigger] pre.free@[k])
        <= pre.live@[li].addr by {
        assert(live_end(pre.live@[li]) <= pre.free@[k].addr || block_end(pre.free@[k])
            <= pre.live@[li].addr);
        assert(pre.free@[k].addr < rec.addr);
    }
    assert forall|k: int| j <= k < pre.free@.len() implies live_end(pre.live@[li]) <= (
    #[trigger] pre.free@[k]).addr by {
        assert(live_end(pre.live@[li]) <= pre.free@[k].addr || block_end(pre.free@[k])
            <= pre.live@[li].addr);
        assert(pre.free@[k].addr >= rec.addr);
        assert(pre.free_in_region(k));
    }
}

/// After dropping record `i`, the remaining allocation records are still
/// well-placed, mutually disjoint, and disjoint from the freed block's
/// range.
proof fn lemma_dealloc_live_side(pre: Allocator, i: int, live2: Seq<LiveBlock>)
    requires
        pre.wf(),
        0 <= i < pre.live@.len(),
        live2 == pre.live@.remove(i),
    ensures
        forall|k: int| 0 <= k < live2.len() ==> pre.live_ok(#[trigger] live2[k]),
        forall|k: int, l: int|
            0 <= k < live2.len() && 0 <= l < live2.len() && k != l ==> (live_end(
                #[trigger] live2[k],
            ) <= (#[trigger] live2[l]).addr || live_end(live2[l]) <= live2[k].addr),
        forall|k: int|
            0 <= k < live2.len() ==> (live_end(#[trigger] live2[k]) <= pre.live@[i].addr
                || live_end(pre.live@[i]) <= live2[k].addr),
{
    assert forall|k: int| 0 <= k < live2.len() implies pre.live_ok(#[trigger] live2[k]) by {
        let k2: int = if k < i {
            k
        } else {
            k + 1
        };
        assert(pre.live_ok(pre.live@[k2]));
    }
    assert forall|k: int, l: int|
        0 <= k < live2.len() && 0 <= l < live2.len() && k != l implies (live_end(
        #[trigger] live2[k],
    ) <= (#[trigger] live2[l]).addr || live_end(live2[l]) <= live2[k].addr) by {
        let k2: int = if k < i {
            k
        } else {
            k + 1
        };
        let l2: int = if l < i {
            l
        } else {
            l + 1
        };
        assert(live_end(pre.live@[k2]) <= pre.live@[l2].addr || live_end(pre.live@[l2])
            <= pre.live@[k2].addr);
    }
    assert forall|k: int| 0 <= k < live2.len() implies (live_end(#[trigger] live2[k])
        <= pre.live@[i].addr || live_end(pre.live@[i]) <= live2[k].addr) by {
        let k2: int = if k < i {
            k
        } else {
            k + 1
        };
        assert(live_end(pre.live@[k2]) <= pre.live@[i].addr || live_end(pre.live@[i])
            <= pre.live@[k2].addr);
    }
}

/// Deallocation case: the freed block touches neither neighbour and is
/// spliced in unmerged.
proof fn lemma_dealloc_no_merge(pre: Allocator, post: Allocator, i: int, j: int)
    requires
        pre.wf(),
        0 <= i < pre.live@.len(),
        j == num_before(pre.free@, pre.live@[i].addr as int),
        !(j > 0 && block_end(pre.free@[j - 1]) == pre.live@[i].addr),
        !(j < pre.free@.len() && live_end(pre.live@[i]) == pre.free@[j].addr),
        post.start == pre.start,
        post.size == pre.size,
        post.live@ == pre.live@.remove(i),
        post.free@ == pre.free@.insert(
            j,
            Block { addr: pre.live@[i].addr, size: pre.live@[i].size },
        ),
    ensures
        post.wf(),
{
    let rec = pre.live@[i];
    let b = Block { addr: rec.addr, size: rec.size };
    assert(pre.live_ok(rec));
    lemma_num_before_props(pre.free@, b.addr as int);
    lemma_deallocate_gaps(pre, i, j);
    lemma_dealloc_live_side(pre, i, post.live@);
    lemma_live_list_bytes_remove(pre.live@, i);
    lemma_free_list_bytes_insert(pre.free@, j, b);
    assert(post.conserved());
    assert forall|k: int| 0 <= k < post.free@.len() implies #[trigger] post.free_in_region(k) by {
        if k < j {
            assert(pre.free_in_region(k));
        } else if k > j {
            assert(pre.free_in_region(k - 1));
        }
    }
    assert forall|k: int, l: int| 0 <= k < l < post.free@.len() implies block_end(
        #[trigger] post.free@[k],
    ) < (#[trigger] post.free@[l]).addr by {
        let k2: int = if k < j {
            k
        } else {
            k - 1
        };
        let l2: int = if l < j {
            l
        } else {
            l - 1
        };
        if k == j {
            // The freed block against a later one.
            assert(live_end(rec) <= pre.free@[l2].addr);
            if l2 > j {
                assert(block_end(pre.free@[j]) < pre.free@[l2].addr);
                assert(pre.free_in_region(j));
            }
        } else if l == j {
            // An earlier block against the freed block.
            assert(block_end(pre.free@[k2]) <= b.addr);
            if k2 < j - 1 {
                assert(block_end(pre.free@[k2]) < pre.free@[j - 1].addr);
                assert(pre.free_in_region(j - 1));
                assert(block_end(pre.free@[j - 1]) <= b.addr);
            }
        } else {
            assert(block_end(pre.free@[k2]) < pre.free@[l2].addr);
        }
    }
    assert forall|k: int, l: int|
        0 <= k < post.live@.len() && 0 <= l < post.free@.len() implies (live_end(
        #[trigger] post.live@[k],
    ) <= (#[trigger] post.free@[l]).addr || block_end(post.free@[l]) <= post.live@[k].addr) by {
        let k2: int = if k < i {
            k
        } else {
            k + 1
        };
        if l == j {
            assert(live_end(pre.live@[k2]) <= pre.live@[i].addr || live_end(pre.live@[i])
                <= pre.live@[k2].addr);
        } else {
            let l2: int = if l < j {
                l
            } else {
                l - 1
            };
            assert(live_end(pre.live@[k2]) <= pre.free@[l2].addr || block_end(pre.free@[l2])
                <= pre.live@[k2].addr);
        }
    }
}

/// Deallocation case: the freed block touches only its predecessor,
/// whose payload absorbs it.
proof fn lemma_dealloc_merge_pred(pre: Allocator, post: Allocator, i: int, j: int)
    requires
        pre.wf(),
        0 <= i < pre.live@.len(),
        j == num_before(pre.free@, pre.live@[i].addr as int),
        j > 0 && block_end(pre.free@[j - 1]) == pre.live@[i].addr,
        !(j < pre.free@.len() && live_end(pre.live@[i]) == pre.free@[j].addr),
        post.start == pre.start,
        post.size == pre.size,
        post.live@ == pre.live@.remove(i),
        post.free@ == pre.free@.update(
            j - 1,
            merge_into_pred(pre.free@[j - 1], Block { addr: pre.live@[i].addr, size: pre.live@[i].size }),
        ),
    ensures
        post.wf(),
{
    let rec = pre.live@[i];
    let b = Block { addr: rec.addr, size: rec.size };
    let p = pre.free@[j - 1];
    let m = merge_into_pred(p, b);
    assert(pre.live_ok(rec));
    lemma_num_before_props(pre.free@, b.addr as int);
    lemma_deallocate_gaps(pre, i, j);
    assert(pre.free_in_region(j - 1));
    lemma_dealloc_live_side(pre, i, post.live@);
    assert(m.size == p.size + HEADER_SIZE + b.size);
    assert(block_end(m) == live_end(rec));
    lemma_live_list_bytes_remove(pre.live@, i);
    lemma_free_list_bytes_update(pre.free@, j - 1, m);
    assert(post.conserved());
    assert forall|k: int| 0 <= k < post.free@.len() implies #[trigger] post.free_in_region(k) by {
        if k != j - 1 {
            assert(pre.free_in_region(k));
        }
    }
    assert forall|k: int, l: int| 0 <= k < l < post.free@.len() implies block_end(
        #[trigger] post.free@[k],
    ) < (#[trigger] post.free@[l]).addr by {
        if k != j - 1 && l != j - 1 {
            assert(block_end(pre.free@[k]) < pre.free@[l].addr);
        } else if l == j - 1 {
            assert(block_end(pre.free@[k]) < pre.free@[j - 1].addr);
        } else {
            // k == j - 1: the merged block ends at the freed block's end,
            // which lies strictly below every later block's start.
            assert(live_end(rec) <= pre.free@[l].addr);
            if l > j {
                assert(block_end(pre.free@[j]) < pre.free@[l].addr);
                assert(pre.free_in_region(j));
            }
        }
    }
    assert forall|k: int, l: int|
        0 <= k < post.live@.len() && 0 <= l < post.free@.len() implies (live_end(
        #[trigger] post.live@[k],
    ) <= (#[trigger] post.free@[l]).addr || block_end(post.free@[l]) <= post.live@[k].addr) by {
        let k2: int = if k < i {
            k
        } else {
            k + 1
        };
        if l == j - 1 {
            // Against the merged block: disjoint from both its pieces.
            assert(live_end(pre.live@[k2]) <= p.addr || block_end(p) <= pre.live@[k2].addr);
            assert(live_end(pre.live@[k2]) <= pre.live@[i].addr || live_end(pre.live@[i])
                <= pre.live@[k2].addr);
        } else {
            assert(live_end(pre.live@[k2]) <= pre.free@[l].addr || block_end(pre.free@[l])
                <= pre.live@[k2].addr);
        }
    }
}

/// Deallocation case: the freed block touches only its successor, whose
/// header and payload it absorbs.
proof fn lemma_dealloc_merge_succ(pre: Allocator, post: Allocator, i: int, j: int)
    requires
        pre.wf(),
        0 <= i < pre.live@.len(),
        j == num_before(pre.free@, pre.live@[i].addr as int),
        !(j > 0 && block_end(pre.free@[j - 1]) == pre.live@[i].addr),
        j < pre.free@.len() && live_end(pre.live@[i]) == pre.free@[j].addr,
        post.start == pre.start,
        post.size == pre.size,
        post.live@ == pre.live@.remove(i),
        post.free@ == pre.free@.update(
            j,
            merge_into_succ(Block { addr: pre.live@[i].addr, size: pre.live@[i].size }, pre.free@[j]),
        ),
    ensures
        post.wf(),
{
    let rec = pre.live@[i];
    let b = Block { addr: rec.addr, size: rec.size };
    let n = pre.free@[j];
    let m = merge_into_succ(b, n);
    assert(pre.live_ok(rec));
    lemma_num_before_props(pre.free@, b.addr as int);
    lemma_deallocate_gaps(pre, i, j);
    assert(pre.free_in_region(j));
    lemma_dealloc_live_side(pre, i, post.live@);
    assert(m.size == b.size + HEADER_SIZE + n.size);
    assert(block_end(m) == block_end(n));
    lemma_live_list_bytes_remove(pre.live@, i);
    lemma_free_list_bytes_update(pre.free@, j, m);
    assert(post.conserved());
    assert forall|k: int| 0 <= k < post.free@.len() implies #[trigger] post.free_in_region(k) by {
        if k != j {
            assert(pre.free_in_region(k));
        }
    }
    assert forall|k: int, l: int| 0 <= k < l < post.free@.len() implies block_end(
        #[trigger] post.free@[k],
    ) < (#[trigger] post.free@[l]).addr by {
        if k != j && l != j {
            assert(block_end(pre.free@[k]) < pre.free@[l].addr);
        } else if l == j {
            // The merged block starts at the freed block's start, which
            // lies strictly above every earlier block's end.
            assert(block_end(pre.free@[k]) <= b.addr);
            if k < j - 1 {
                assert(block_end(pre.free@[k]) < pre.free@[j - 1].addr);
                assert(pre.free_in_region(j - 1));
                assert(block_end(pre.free@[j - 1]) <= b.addr);
            }
        } else {
            assert(block_end(pre.free@[j]) < pre.free@[l].addr);
        }
    }
    assert forall|k: int, l: int|
        0 <= k < post.live@.len() && 0 <= l < post.free@.len() implies (live_end(
        #[trigger] post.live@[k],
    ) <= (#[trigger] post.free@[l]).addr || block_end(post.free@[l]) <= post.live@[k].addr) by {
        let k2: int = if k < i {
            k
        } else {
            k + 1
        };
        if l == j {
            assert(live_end(pre.live@[k2]) <= n.addr || block_end(n) <= pre.live@[k2].addr);
            assert(live_end(pre.live@[k2]) <= pre.live@[i].addr || live_end(pre.live@[i])
                <= pre.live@[k2].addr);
        } else {
            assert(live_end(pre.live@[k2]) <= pre.free@[l].addr || block_end(pre.free@[l])
                <= pre.live@[k2].addr);
        }
    }
}

/// Deallocation case: the freed block bridges its predecessor and
/// successor, and all three become one block.
proof fn lemma_dealloc_merge_both(pre: Allocator, post: Allocator, i: int, j: int)
    requires
        pre.wf(),
        0 <= i < pre.live@.len(),
        j == num_before(pre.free@, pre.live@[i].addr as int),
        j > 0 && block_end(pre.free@[j - 1]) == pre.live@[i].addr,
        j < pre.free@.len() && live_end(pre.live@[i]) == pre.free@[j].addr,
        post.start == pre.start,
        post.size == pre.size,
        post.live@ == pre.live@.remove(i),
        post.free@ == pre.free@.update(
            j - 1,
            merge_into_pred(
                pre.free@[j - 1],
                merge_into_succ(
                    Block { addr: pre.live@[i].addr, size: pre.live@[i].size },
                    pre.free@[j],
                ),
            ),
        ).remove(j),
    ensures
        post.wf(),
{
    let rec = pre.live@[i];
    let b = Block { addr: rec.addr, size: rec.size };
    let p = pre.free@[j - 1];
    let n = pre.free@[j];
    let m = merge_into_pred(p, merge_into_succ(b, n));
    assert(pre.live_ok(rec));
    lemma_num_before_props(pre.free@, b.addr as int);
    lemma_deallocate_gaps(pre, i, j);
    assert(pre.free_in_region(j - 1));
    assert(pre.free_in_region(j));
    lemma_dealloc_live_side(pre, i, post.live@);
    assert(p.addr + HEADER_SIZE + (p.size + HEADER_SIZE + b.size + HEADER_SIZE + n.size)
        == block_end(n));
    assert(m.size == p.size + HEADER_SIZE + b.size + HEADER_SIZE + n.size);
    assert(block_end(m) == block_end(n));
    let mid = pre.free@.update(j - 1, m);
    lemma_live_list_bytes_remove(pre.live@, i);
    lemma_free_list_bytes_update(pre.free@, j - 1, m);
    assert(mid[j] == n);
    lemma_free_list_bytes_remove(mid, j);
    assert(post.conserved());
    assert forall|k: int| 0 <= k < post.free@.len() implies #[trigger] post.free_in_region(k) by {
        if k < j - 1 {
            assert(pre.free_in_region(k));
        } else if k > j - 1 {
            assert(pre.free_in_region(k + 1));
        }
    }
    assert forall|k: int, l: int| 0 <= k < l < post.free@.len() implies block_end(
        #[trigger] post.free@[k],
    ) < (#[trigger] post.free@[l]).addr by {
        let k2: int = if k < j {
            k
        } else {
            k + 1
        };
        let l2: int = if l < j {
            l
        } else {
            l + 1
        };
        if k2 != j - 1 && l2 != j - 1 {
            assert(block_end(pre.free@[k2]) < pre.free@[l2].addr);
        } else if l2 == j - 1 {
            assert(block_end(pre.free@[k2]) < pre.free@[j - 1].addr);
        } else {
            // k2 == j - 1: the merged block ends where the old successor
            // ended.
            assert(block_end(pre.free@[j]) < pre.free@[l2].addr);
        }
    }
    assert forall|k: int, l: int|
        0 <= k < post.live@.len() && 0 <= l < post.free@.len() implies (live_end(
        #[trigger] post.live@[k],
    ) <= (#[trigger] post.free@[l]).addr || block_end(post.free@[l]) <= post.live@[k].addr) by {
        let k2: int = if k < i {
            k
        } else {
            k + 1
        };
        let l2: int = if l < j {
            l
        } else {
            l + 1
        };
        if l2 == j - 1 {
            // Against the merged block: disjoint from each of its three
            // pieces.
            assert(live_end(pre.live@[k2]) <= p.addr || block_end(p) <= pre.live@[k2].addr);
            assert(live_end(pre.live@[k2]) <= n.addr || block_end(n) <= pre.live@[k2].addr);
            assert(live_end(pre.live@[k2]) <= pre.live@[i].addr || live_end(pre.live@[i])
                <= pre.live@[k2].addr);
        } else {
            assert(live_end(pre.live@[k2]) <= pre.free@[l2].addr || block_end(pre.free@[l2])
                <= pre.live@[k2].addr);
        }
    }
}

/// The transition described by `deallocate_post` preserves the
/// allocator's invariant.
pub proof fn lemma_deallocate_wf(pre: Allocator, post: Allocator, ptr: usize)
    requires
        pre.wf(),
        deallocate_post(pre, post, ptr),
    ensures
        post.wf(),
{
    match find_live(pre.live@, ptr) {
        None => {
            lemma_wf_same_fields(pre, post);
        },
        Some(i) => {
            lemma_find_live_props(pre.live@, ptr);
            let rec = pre.live@[i];
            let b = Block { addr: rec.addr, size: rec.size };
            assert(pre.live_ok(rec));
            let j = num_before(pre.free@, b.addr as int);
            lemma_num_before_props(pre.free@, b.addr as int);
            let pred_adj = j > 0 && block_end(pre.free@[j - 1]) == b.addr;
            let succ_adj = j < pre.free@.len() && block_end(b) == pre.free@[j].addr;
            assert(block_end(b) == live_end(rec));
            if pred_adj && succ_adj {
                lemma_dealloc_merge_both(pre, post, i, j);
            } else if pred_adj {
                lemma_dealloc_merge_pred(pre, post, i, j);
            } else if succ_adj {
                lemma_dealloc_merge_succ(pre, post, i, j);
            } else {
                lemma_dealloc_no_merge(pre, post, i, j);
            }
        },
    }
}

/// When some record holds `ptr`, `find_live` finds one.
pub proof fn lemma_find_live_props(s: Seq<LiveBlock>, ptr: usize)
    ensures
        match find_live(s, ptr) {
            Some(i) => 0 <= i < s.len() && s[i].ptr == ptr,
            None => forall|k: int| 0 <= k < s.len() ==> (#[trigger] s[k]).ptr != ptr,
        },
    decreases s.len(),
{
    if s.len() == 0 {
    } else if s[0].ptr == ptr {
    } else {
        let t = s.skip(1);
        lemma_find_live_props(t, ptr);
        match find_live(t, ptr) {
            Some(i) => {
                assert(t[i] == s[i + 1]);
            },
            None => {
                assert forall|k: int| 0 <= k < s.len() implies (#[trigger] s[k]).ptr != ptr by {
                    if k > 0 {
                        assert(t[k - 1] == s[k]);
                    }
                }
            },
        }
    }
}

} // verus!
