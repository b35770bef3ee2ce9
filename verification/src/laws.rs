//! The heap allocator's global guarantees, stated and proved once over
//! the transition relations of `allocate` and `deallocate`.
//!
//! Each operation's own contract says that it preserves `wf`, so by
//! induction these laws hold after any sequence of `allocate` and
//! `deallocate` calls on an initialized allocator.

use vstd::prelude::*;
use crate::align::{is_power_of_two, lemma_pad_for, lemma_power_of_two_pos, pad_for};
use crate::allocator::{allocate_post, deallocate_post, find_live, lemma_allocate_wf, Allocator};
use crate::free_list::{
    block_end, find_fit, fits, free_list_bytes, free_payload_bytes, insert_coalesce,
    lemma_find_fit_none, lemma_find_fit_props, lemma_free_list_bytes_decompose,
    lemma_free_list_bytes_nonneg, lemma_live_list_bytes_decompose, live_payload_bytes, lemma_live_list_bytes_nonneg,
    live_end, live_list_bytes, num_before, Block, LiveBlock, HEADER_SIZE,
};

verus! {

/// Sortedness: walking the free list of a well-formed allocator yields
/// strictly ascending block addresses.  Since `init`, `allocate` and
/// `deallocate` all ensure well-formedness, this holds after any
/// sequence of calls.
pub proof fn lemma_free_list_sorted(a: Allocator)
    requires
        a.wf(),
    ensures
        forall|i: int, j: int|
            0 <= i < j < a.free@.len() ==> (#[trigger] a.free@[i]).addr < (
            #[trigger] a.free@[j]).addr,
{
    assert forall|i: int, j: int| 0 <= i < j < a.free@.len() implies (
    #[trigger] a.free@[i]).addr < (#[trigger] a.free@[j]).addr by {
        assert(block_end(a.free@[i]) < a.free@[j].addr);
    }
}

/// No stale adjacency: in a well-formed allocator no two free blocks are
/// byte-adjacent — every deallocation has merged what touched.  Holds in
/// particular after every `deallocate`, which ensures well-formedness.
pub proof fn lemma_no_stale_adjacency(a: Allocator)
    requires
        a.wf(),
    ensures
        forall|i: int, j: int|
            0 <= i < j < a.free@.len() ==> block_end(#[trigger] a.free@[i]) != (
            #[trigger] a.free@[j]).addr,
{
    assert forall|i: int, j: int| 0 <= i < j < a.free@.len() implies block_end(
        #[trigger] a.free@[i],
    ) != (#[trigger] a.free@[j]).addr by {
        assert(block_end(a.free@[i]) < a.free@[j].addr);
    }
}

/// Conservation: at every quiescent point the free blocks and the
/// outstanding allocations (each with its header) account for the whole
/// region, byte for byte.
pub proof fn lemma_conservation(a: Allocator)
    requires
        a.wf(),
    ensures
        free_list_bytes(a.free@) + live_list_bytes(a.live@) == a.size,
{
}

/// Conservation, spelled out: the free payloads, the outstanding
/// allocated sizes, and one header for every block on either side add up
/// to exactly the region's length.
pub proof fn lemma_conservation_by_parts(a: Allocator)
    requires
        a.wf(),
    ensures
        free_payload_bytes(a.free@) + live_payload_bytes(a.live@) + HEADER_SIZE * (a.free@.len()
            + a.live@.len()) == a.size,
{
    lemma_free_list_bytes_decompose(a.free@);
    lemma_live_list_bytes_decompose(a.live@);
    assert(HEADER_SIZE * (a.free@.len() + a.live@.len()) == HEADER_SIZE * a.free@.len()
        + HEADER_SIZE * a.live@.len()) by (nonlinear_arith);
}

/// A consequence of conservation: the bytes handed out (headers
/// included) never exceed the region's length, so exhausting the region
/// makes further requests fail rather than corrupt.
pub proof fn lemma_outstanding_bounded(a: Allocator)
    requires
        a.wf(),
    ensures
        live_list_bytes(a.live@) <= a.size,
        free_list_bytes(a.free@) <= a.size,
{
    lemma_free_list_bytes_nonneg(a.free@);
    lemma_live_list_bytes_nonneg(a.live@);
}

/// Alignment: every pointer that `allocate` hands out is a multiple of
/// the requested power-of-two alignment.
pub proof fn lemma_alignment(pre: Allocator, post: Allocator, size: int, align: int, p: usize)
    requires
        pre.wf(),
        1 <= size,
        is_power_of_two(align),
        allocate_post(pre, post, size, align, Some(p)),
    ensures
        p as int % align == 0,
{
    lemma_power_of_two_pos(align);
    lemma_find_fit_props(pre.free@, size, align);
    match find_fit(pre.free@, size, align) {
        None => {
        },
        Some(i) => {
            let b = pre.free@[i];
            assert(pre.free_in_region(i));
            lemma_pad_for(b.addr + HEADER_SIZE, align);
        },
    }
}

/// Exhaustion, in any state: a request larger than the region can ever
/// serve fails on every well-formed heap, however fragmented, and leaves
/// it untouched — exhaustion never yields a corrupting pointer.
pub proof fn lemma_oversized_request_fails(
    pre: Allocator,
    post: Allocator,
    size: int,
    align: int,
    r: Option<usize>,
)
    requires
        pre.wf(),
        1 <= size,
        is_power_of_two(align),
        size > pre.size - HEADER_SIZE,
        allocate_post(pre, post, size, align, r),
    ensures
        r is None,
        post.free@ == pre.free@,
        post.live@ == pre.live@,
{
    lemma_power_of_two_pos(align);
    assert forall|k: int| 0 <= k < pre.free@.len() implies !fits(
        #[trigger] pre.free@[k],
        size,
        align,
    ) by {
        let b = pre.free@[k];
        assert(pre.free_in_region(k));
        lemma_pad_for(b.addr + HEADER_SIZE, align);
    }
    lemma_find_fit_none(pre.free@, size, align);
}

/// No corruption: a successful allocation's whole block lies inside the
/// region and overlaps no allocation that was outstanding before it.
pub proof fn lemma_allocation_does_not_corrupt(
    pre: Allocator,
    post: Allocator,
    size: int,
    align: int,
    p: usize,
)
    requires
        pre.wf(),
        1 <= size,
        is_power_of_two(align),
        allocate_post(pre, post, size, align, Some(p)),
    ensures
        post.live@.len() == pre.live@.len() + 1,
        ({
            let rec = post.live@.last();
            &&& pre.start <= rec.addr
            &&& rec.addr + HEADER_SIZE <= p < rec.addr + HEADER_SIZE + rec.size
            &&& rec.addr + HEADER_SIZE + rec.size <= pre.start + pre.size
            &&& forall|k: int|
                0 <= k < pre.live@.len() ==> (rec.addr + HEADER_SIZE + rec.size <= (
                #[trigger] pre.live@[k]).addr || pre.live@[k].addr + HEADER_SIZE
                    + pre.live@[k].size <= rec.addr)
        }),
{
    lemma_allocate_wf(pre, post, size, align, Some(p));
    lemma_find_fit_props(pre.free@, size, align);
    let n = pre.live@.len() as int;
    let rec = post.live@.last();
    assert(post.live_ok(rec));
    assert(rec.ptr == p);
    assert forall|k: int| 0 <= k < n implies (rec.addr + HEADER_SIZE + rec.size <= (
    #[trigger] pre.live@[k]).addr || pre.live@[k].addr + HEADER_SIZE + pre.live@[k].size
        <= rec.addr) by {
        assert(post.live@[k] == pre.live@[k]);
        assert(live_end(post.live@[n]) <= post.live@[k].addr || live_end(post.live@[k])
            <= post.live@[n].addr);
    }
}

/// Round trip: on a heap whose region is one single free block, a
/// successful allocation followed by deallocation of the returned
/// pointer restores exactly the pre-allocation shape, whichever way the
/// block was split and coalesced.
pub proof fn lemma_round_trip(
    pre: Allocator,
    mid: Allocator,
    post: Allocator,
    size: int,
    align: int,
    p: usize,
)
    requires
        pre.wf(),
        pre.is_single_free_block(),
        1 <= size,
        is_power_of_two(align),
        allocate_post(pre, mid, size, align, Some(p)),
        deallocate_post(mid, post, p),
    ensures
        post.start == pre.start,
        post.size == pre.size,
        post.free@ == pre.free@,
        post.live@ == pre.live@,
{
    lemma_power_of_two_pos(align);
    let b0 = Block { addr: pre.start, size: (pre.size - HEADER_SIZE) as usize };
    assert(pre.free@[0] == b0);
    lemma_find_fit_props(pre.free@, size, align);
    assert(find_fit(pre.free@, size, align) is Some);
    let i = find_fit(pre.free@, size, align)->Some_0;
    assert(i == 0);
    assert(pre.free_in_region(0));
    lemma_pad_for(b0.addr + HEADER_SIZE, align);
    let pad = pad_for(b0.addr + HEADER_SIZE, align);
    let needed = pad + size;
    let split = needed + HEADER_SIZE <= b0.size;
    let consumed: int = if split {
        needed
    } else {
        b0.size as int
    };
    let rec = LiveBlock {
        addr: b0.addr,
        ptr: (b0.addr + HEADER_SIZE + pad) as usize,
        size: consumed as usize,
    };
    assert(mid.live@ =~= seq![rec]);
    assert(rec.ptr == p);

    // The freed record is found again.
    assert(find_live(mid.live@, p) == Some(0int));
    assert(post.live@ =~= Seq::<LiveBlock>::empty());
    assert(post.live@ == pre.live@);

    let fb = Block { addr: rec.addr, size: rec.size };
    assert(post.free@ == insert_coalesce(mid.free@, fb));
    if split {
        let nb = Block {
            addr: (b0.addr + HEADER_SIZE + needed) as usize,
            size: (b0.size - needed - HEADER_SIZE) as usize,
        };
        assert(mid.free@ =~= seq![nb]);
        // The freed block sits just below the remainder block and merges
        // with it, restoring the single block.
        assert(num_before(mid.free@, fb.addr as int) == 0) by {
            assert(!(mid.free@[0].addr < fb.addr));
        }
        assert(block_end(fb) == nb.addr);
        assert(insert_coalesce(mid.free@, fb) =~= seq![
            Block { addr: fb.addr, size: (fb.size + HEADER_SIZE + nb.size) as usize },
        ]);
        assert(fb.size + HEADER_SIZE + nb.size == b0.size);
        assert(post.free@ =~= pre.free@);
    } else {
        assert(mid.free@ =~= Seq::<Block>::empty());
        assert(num_before(mid.free@, fb.addr as int) == 0);
        assert(insert_coalesce(mid.free@, fb) =~= seq![fb]);
        assert(fb == b0);
        assert(post.free@ =~= pre.free@);
    }
}

} // verus!
