//! The mathematical model of the free-list heap: blocks, the byte counts
//! they occupy, first-fit search, and sorted insertion with coalescing.
//!
//! A block occupying the address range `[addr, addr + HEADER_SIZE + size)`
//! consists of a header of `HEADER_SIZE` bytes followed by `size` payload
//! bytes.  The same layout describes free blocks and outstanding
//! allocations; an allocation's payload also accounts for any alignment
//! padding and tail slack folded into it.

use vstd::prelude::*;
use crate::align::pad_for;

verus! {

/// Bytes taken by the header stored at the start of every block: a size
/// word and a link to the next free block.
pub const HEADER_SIZE: usize = 16;

/// A free block: `size` reusable payload bytes preceded by a header at
/// `addr`.
#[derive(Clone, Copy, PartialEq, Eq, Structural, Debug)]
pub struct Block {
    pub addr: usize,
    pub size: usize,
}

/// An outstanding allocation: the block spans
/// `[addr, addr + HEADER_SIZE + size)`, and `ptr` is the aligned payload
/// address that was handed to the caller.
#[derive(Clone, Copy, PartialEq, Eq, Structural, Debug)]
pub struct LiveBlock {
    pub addr: usize,
    pub ptr: usize,
    pub size: usize,
}

/// One-past-the-end address of a free block.
pub open spec fn block_end(b: Block) -> int {
    b.addr + HEADER_SIZE + b.size
}

/// One-past-the-end address of an outstanding allocation.
pub open spec fn live_end(b: LiveBlock) -> int {
    b.addr + HEADER_SIZE + b.size
}

/// Total bytes occupied by a list of free blocks, headers included.
pub open spec fn free_list_bytes(s: Seq<Block>) -> int
    decreases s.len(),
{
    if s.len() == 0 {
        0
    } else {
        HEADER_SIZE + s[0].size + free_list_bytes(s.skip(1))
    }
}

/// Total bytes occupied by a list of outstanding allocations, headers
/// included.
pub open spec fn live_list_bytes(s: Seq<LiveBlock>) -> int
    decreases s.len(),
{
    if s.len() == 0 {
        0
    } else {
        HEADER_SIZE + s[0].size + live_list_bytes(s.skip(1))
    }
}

pub proof fn lemma_free_list_bytes_concat(a: Seq<Block>, b: Seq<Block>)
    ensures
        free_list_bytes(a + b) == free_list_bytes(a) + free_list_bytes(b),
    decreases a.len(),
{
    if a.len() == 0 {
        assert(a + b =~= b);
    } else {
        assert((a + b).skip(1) =~= a.skip(1) + b);
        lemma_free_list_bytes_concat(a.skip(1), b);
    }
}

pub proof fn lemma_live_list_bytes_concat(a: Seq<LiveBlock>, b: Seq<LiveBlock>)
    ensures
        live_list_bytes(a + b) == live_list_bytes(a) + live_list_bytes(b),
    decreases a.len(),
{
    if a.len() == 0 {
        assert(a + b =~= b);
    } else {
        assert((a + b).skip(1) =~= a.skip(1) + b);
        lemma_live_list_bytes_concat(a.skip(1), b);
    }
}

pub proof fn lemma_free_list_bytes_singleton(b: Block)
    ensures
        free_list_bytes(seq![b]) == HEADER_SIZE + b.size,
{
    assert(seq![b].skip(1) =~= Seq::<Block>::empty());
    assert(free_list_bytes(Seq::<Block>::empty()) == 0);
}

pub proof fn lemma_live_list_bytes_singleton(b: LiveBlock)
    ensures
        live_list_bytes(seq![b]) == HEADER_SIZE + b.size,
{
    assert(seq![b].skip(1) =~= Seq::<LiveBlock>::empty());
    assert(live_list_bytes(Seq::<LiveBlock>::empty()) == 0);
}

/// A list of free blocks occupies at least nothing.
pub proof fn lemma_free_list_bytes_nonneg(s: Seq<Block>)
    ensures
        free_list_bytes(s) >= 0,
    decreases s.len(),
{
    if s.len() > 0 {
        lemma_free_list_bytes_nonneg(s.skip(1));
    }
}

/// A list of outstanding allocations occupies at least nothing.
pub proof fn lemma_live_list_bytes_nonneg(s: Seq<LiveBlock>)
    ensures
        live_list_bytes(s) >= 0,
    decreases s.len(),
{
    if s.len() > 0 {
        lemma_live_list_bytes_nonneg(s.skip(1));
    }
}

/// Replacing one free block changes the total by the difference in
/// payload sizes.
pub proof fn lemma_free_list_bytes_update(s: Seq<Block>, i: int, b: Block)
    requires
        0 <= i < s.len(),
    ensures
        free_list_bytes(s.update(i, b)) == free_list_bytes(s) + b.size - s[i].size,
{
    let prefix = s.subrange(0, i);
    let suffix = s.subrange(i + 1, s.len() as int);
    assert(s =~= prefix + seq![s[i]] + suffix);
    assert(s.update(i, b) =~= prefix + seq![b] + suffix);
    lemma_free_list_bytes_concat(prefix + seq![s[i]], suffix);
    lemma_free_list_bytes_concat(prefix, seq![s[i]]);
    lemma_free_list_bytes_concat(prefix + seq![b], suffix);
    lemma_free_list_bytes_concat(prefix, seq![b]);
    lemma_free_list_bytes_singleton(s[i]);
    lemma_free_list_bytes_singleton(b);
}

/// Removing a free block removes its header and payload from the total.
pub proof fn lemma_free_list_bytes_remove(s: Seq<Block>, i: int)
    requires
        0 <= i < s.len(),
    ensures
        free_list_bytes(s.remove(i)) == free_list_bytes(s) - HEADER_SIZE - s[i].size,
{
    let prefix = s.subrange(0, i);
    let suffix = s.subrange(i + 1, s.len() as int);
    assert(s =~= prefix + seq![s[i]] + suffix);
    assert(s.remove(i) =~= prefix + suffix);
    lemma_free_list_bytes_concat(prefix + seq![s[i]], suffix);
    lemma_free_list_bytes_concat(prefix, seq![s[i]]);
    lemma_free_list_bytes_concat(prefix, suffix);
    lemma_free_list_bytes_singleton(s[i]);
}

/// Inserting a free block adds its header and payload to the total.
pub proof fn lemma_free_list_bytes_insert(s: Seq<Block>, i: int, b: Block)
    requires
        0 <= i <= s.len(),
    ensures
        free_list_bytes(s.insert(i, b)) == free_list_bytes(s) + HEADER_SIZE + b.size,
{
    let prefix = s.subrange(0, i);
    let suffix = s.subrange(i, s.len() as int);
    assert(s =~= prefix + suffix);
    assert(s.insert(i, b) =~= prefix + seq![b] + suffix);
    lemma_free_list_bytes_concat(prefix, suffix);
    lemma_free_list_bytes_concat(prefix + seq![b], suffix);
    lemma_free_list_bytes_concat(prefix, seq![b]);
    lemma_free_list_bytes_singleton(b);
}

/// Recording one more allocation adds its header and payload to the
/// total.
pub proof fn lemma_live_list_bytes_push(s: Seq<LiveBlock>, b: LiveBlock)
    ensures
        live_list_bytes(s.push(b)) == live_list_bytes(s) + HEADER_SIZE + b.size,
{
    assert(s.push(b) =~= s + seq![b]);
    lemma_live_list_bytes_concat(s, seq![b]);
    lemma_live_list_bytes_singleton(b);
}

/// Dropping one allocation removes its header and payload from the
/// total.
pub proof fn lemma_live_list_bytes_remove(s: Seq<LiveBlock>, i: int)
    requires
        0 <= i < s.len(),
    ensures
        live_list_bytes(s.remove(i)) == live_list_bytes(s) - HEADER_SIZE - s[i].size,
{
    let prefix = s.subrange(0, i);
    let suffix = s.subrange(i + 1, s.len() as int);
    assert(s =~= prefix + seq![s[i]] + suffix);
    assert(s.remove(i) =~= prefix + suffix);
    lemma_live_list_bytes_concat(prefix + seq![s[i]], suffix);
    lemma_live_list_bytes_concat(prefix, seq![s[i]]);
    lemma_live_list_bytes_concat(prefix, suffix);
    lemma_live_list_bytes_singleton(s[i]);
}

/// Extending a prefix by one block adds that block's header and payload.
pub proof fn lemma_free_list_bytes_take_step(s: Seq<Block>, i: int)
    requires
        0 <= i < s.len(),
    ensures
        free_list_bytes(s.take(i + 1)) == free_list_bytes(s.take(i)) + HEADER_SIZE + s[i].size,
{
    assert(s.take(i + 1) =~= s.take(i) + seq![s[i]]);
    lemma_free_list_bytes_concat(s.take(i), seq![s[i]]);
    lemma_free_list_bytes_singleton(s[i]);
}

/// A prefix occupies no more than the whole list.
pub proof fn lemma_free_list_bytes_split_bound(s: Seq<Block>, i: int)
    requires
        0 <= i <= s.len(),
    ensures
        free_list_bytes(s.take(i)) <= free_list_bytes(s),
{
    assert(s =~= s.take(i) + s.skip(i));
    lemma_free_list_bytes_concat(s.take(i), s.skip(i));
    lemma_free_list_bytes_nonneg(s.skip(i));
}

/// Extending a prefix by one record adds that record's header and
/// payload.
pub proof fn lemma_live_list_bytes_take_step(s: Seq<LiveBlock>, i: int)
    requires
        0 <= i < s.len(),
    ensures
        live_list_bytes(s.take(i + 1)) == live_list_bytes(s.take(i)) + HEADER_SIZE + s[i].size,
{
    assert(s.take(i + 1) =~= s.take(i) + seq![s[i]]);
    lemma_live_list_bytes_concat(s.take(i), seq![s[i]]);
    lemma_live_list_bytes_singleton(s[i]);
}

/// A prefix occupies no more than the whole list.
pub proof fn lemma_live_list_bytes_split_bound(s: Seq<LiveBlock>, i: int)
    requires
        0 <= i <= s.len(),
    ensures
        live_list_bytes(s.take(i)) <= live_list_bytes(s),
{
    assert(s =~= s.take(i) + s.skip(i));
    lemma_live_list_bytes_concat(s.take(i), s.skip(i));
    lemma_live_list_bytes_nonneg(s.skip(i));
}

/// Payload bytes of a list of free blocks, headers not counted.
pub open spec fn free_payload_bytes(s: Seq<Block>) -> int
    decreases s.len(),
{
    if s.len() == 0 {
        0
    } else {
        s[0].size + free_payload_bytes(s.skip(1))
    }
}

/// Payload bytes of a list of outstanding allocations, headers not
/// counted.
pub open spec fn live_payload_bytes(s: Seq<LiveBlock>) -> int
    decreases s.len(),
{
    if s.len() == 0 {
        0
    } else {
        s[0].size + live_payload_bytes(s.skip(1))
    }
}

/// The bytes of a free list are its payloads plus one header per block.
pub proof fn lemma_free_list_bytes_decompose(s: Seq<Block>)
    ensures
        free_list_bytes(s) == free_payload_bytes(s) + HEADER_SIZE * s.len(),
    decreases s.len(),
{
    if s.len() > 0 {
        lemma_free_list_bytes_decompose(s.skip(1));
        assert(HEADER_SIZE * s.len() == HEADER_SIZE * s.skip(1).len() + HEADER_SIZE)
            by (nonlinear_arith)
            requires
                s.len() >= 1,
                s.skip(1).len() == s.len() - 1,
        ;
    }
}

/// The bytes of the allocation records are their payloads plus one
/// header each.
pub proof fn lemma_live_list_bytes_decompose(s: Seq<LiveBlock>)
    ensures
        live_list_bytes(s) == live_payload_bytes(s) + HEADER_SIZE * s.len(),
    decreases s.len(),
{
    if s.len() > 0 {
        lemma_live_list_bytes_decompose(s.skip(1));
        assert(HEADER_SIZE * s.len() == HEADER_SIZE * s.skip(1).len() + HEADER_SIZE)
            by (nonlinear_arith)
            requires
                s.len() >= 1,
                s.skip(1).len() == s.len() - 1,
        ;
    }
}

/// A request of `size` bytes at alignment `align` can be carved out of
/// free block `b`: after the padding that aligns the payload address,
/// `size` bytes still fit in `b`'s payload.
pub open spec fn fits(b: Block, size: int, align: int) -> bool {
    pad_for(b.addr + HEADER_SIZE, align) + size <= b.size
}

/// Index of the first free block that can serve the request, if any:
/// the first-fit placement policy.
pub open spec fn find_fit(s: Seq<Block>, size: int, align: int) -> Option<int>
    decreases s.len(),
{
    if s.len() == 0 {
        None
    } else if fits(s[0], size, align) {
        Some(0int)
    } else {
        match find_fit(s.skip(1), size, align) {
            Some(i) => Some(i + 1),
            None => None,
        }
    }
}

/// What `find_fit` returns: the first usable index, or nothing when no
/// block is usable.
pub proof fn lemma_find_fit_props(s: Seq<Block>, size: int, align: int)
    ensures
        match find_fit(s, size, align) {
            Some(i) => 0 <= i < s.len() && fits(s[i], size, align)
                && forall|j: int| 0 <= j < i ==> !fits(#[trigger] s[j], size, align),
            None => forall|j: int| 0 <= j < s.len() ==> !fits(#[trigger] s[j], size, align),
        },
    decreases s.len(),
{
    if s.len() == 0 {
    } else if fits(s[0], size, align) {
    } else {
        let t = s.skip(1);
        lemma_find_fit_props(t, size, align);
        match find_fit(t, size, align) {
            Some(i) => {
                assert(t[i] == s[i + 1]);
                assert forall|j: int| 0 <= j < i + 1 implies !fits(
                    #[trigger] s[j],
                    size,
                    align,
                ) by {
                    if j > 0 {
                        assert(t[j - 1] == s[j]);
                    }
                }
            }
            None => {
                assert forall|j: int| 0 <= j < s.len() implies !fits(
                    #[trigger] s[j],
                    size,
                    align,
                ) by {
                    if j > 0 {
                        assert(t[j - 1] == s[j]);
                    }
                }
            }
        }
    }
}

/// `find_fit` returns exactly the first usable index.
pub proof fn lemma_find_fit_at(s: Seq<Block>, size: int, align: int, i: int)
    requires
        0 <= i < s.len(),
        fits(s[i], size, align),
        forall|j: int| 0 <= j < i ==> !fits(#[trigger] s[j], size, align),
    ensures
        find_fit(s, size, align) == Some(i),
    decreases s.len(),
{
    if i == 0 {
    } else {
        assert(!fits(s[0], size, align));
        assert(s.skip(1)[i - 1] == s[i]);
        assert(forall|j: int| 0 <= j < i - 1 ==> s.skip(1)[j] == s[j + 1]);
        lemma_find_fit_at(s.skip(1), size, align, i - 1);
    }
}

/// When no block is usable, `find_fit` finds nothing.
pub proof fn lemma_find_fit_none(s: Seq<Block>, size: int, align: int)
    requires
        forall|j: int| 0 <= j < s.len() ==> !fits(#[trigger] s[j], size, align),
    ensures
        find_fit(s, size, align) is None,
{
    lemma_find_fit_props(s, size, align);
    if find_fit(s, size, align) is Some {
        let i = find_fit(s, size, align)->Some_0;
        assert(!fits(s[i], size, align));
    }
}

/// The blocks are in ascending address order and no two of them touch:
/// each block ends strictly below the start of every later one.
pub open spec fn blocks_sorted(s: Seq<Block>) -> bool {
    forall|i: int, j: int|
        0 <= i < j < s.len() ==> block_end(#[trigger] s[i]) < (#[trigger] s[j]).addr
}

/// How many blocks at the front of the (address-sorted) list start below
/// address `a`: the insertion index that keeps the list sorted.
pub open spec fn num_before(s: Seq<Block>, a: int) -> int
    decreases s.len(),
{
    if s.len() == 0 {
        0
    } else if s[0].addr < a {
        1 + num_before(s.skip(1), a)
    } else {
        0
    }
}

/// `num_before` is exactly the index where the prefix below `a` ends.
pub proof fn lemma_num_before_at(s: Seq<Block>, a: int, j: int)
    requires
        0 <= j <= s.len(),
        forall|k: int| 0 <= k < j ==> (#[trigger] s[k]).addr < a,
        j < s.len() ==> s[j].addr >= a,
    ensures
        num_before(s, a) == j,
    decreases s.len(),
{
    if j == 0 {
    } else {
        assert(s[0].addr < a);
        assert(forall|k: int| 0 <= k < j - 1 ==> s.skip(1)[k] == s[k + 1]);
        assert(j - 1 < s.skip(1).len() ==> s.skip(1)[j - 1] == s[j]);
        lemma_num_before_at(s.skip(1), a, j - 1);
    }
}

/// In a sorted list, `num_before(s, a)` splits the list into the blocks
/// that start below `a` and the blocks that start at or above it.
pub proof fn lemma_num_before_props(s: Seq<Block>, a: int)
    requires
        blocks_sorted(s),
    ensures
        0 <= num_before(s, a) <= s.len(),
        forall|k: int| 0 <= k < num_before(s, a) ==> (#[trigger] s[k]).addr < a,
        forall|k: int| num_before(s, a) <= k < s.len() ==> (#[trigger] s[k]).addr >= a,
    decreases s.len(),
{
    if s.len() == 0 {
    } else if s[0].addr < a {
        let t = s.skip(1);
        assert forall|i: int, j: int| 0 <= i < j < t.len() implies block_end(#[trigger] t[i]) < (
        #[trigger] t[j]).addr by {
            assert(t[i] == s[i + 1]);
            assert(t[j] == s[j + 1]);
            assert(block_end(s[i + 1]) < s[j + 1].addr);
        }
        lemma_num_before_props(t, a);
        let j = num_before(s, a);
        assert forall|k: int| 0 <= k < j implies (#[trigger] s[k]).addr < a by {
            if k > 0 {
                assert(t[k - 1] == s[k]);
            }
        }
        assert forall|k: int| j <= k < s.len() implies (#[trigger] s[k]).addr >= a by {
            assert(t[k - 1] == s[k]);
        }
    } else {
        assert forall|k: int| 0 <= k < s.len() implies (#[trigger] s[k]).addr >= a by {
            if k > 0 {
                assert(block_end(s[0]) < s[k].addr);
            }
        }
    }
}

/// The block obtained by merging a newly freed block into its adjacent
/// predecessor: the predecessor's payload absorbs the freed header and
/// payload.
pub open spec fn merge_into_pred(p: Block, b: Block) -> Block {
    Block { addr: p.addr, size: (p.size + HEADER_SIZE + b.size) as usize }
}

/// The block obtained by merging a newly freed block with its adjacent
/// successor: the freed payload absorbs the successor's header and
/// payload.
pub open spec fn merge_into_succ(b: Block, n: Block) -> Block {
    Block { addr: b.addr, size: (b.size + HEADER_SIZE + n.size) as usize }
}

/// Splices freed block `b` into the address-sorted list `s` and merges
/// it with whichever immediate neighbours are byte-adjacent, exactly as
/// deallocation does.
pub open spec fn insert_coalesce(s: Seq<Block>, b: Block) -> Seq<Block> {
    let j = num_before(s, b.addr as int);
    let pred_adj = j > 0 && block_end(s[j - 1]) == b.addr;
    let succ_adj = j < s.len() && block_end(b) == s[j].addr;
    if pred_adj && succ_adj {
        s.update(j - 1, merge_into_pred(s[j - 1], merge_into_succ(b, s[j]))).remove(j)
    } else if pred_adj {
        s.update(j - 1, merge_into_pred(s[j - 1], b))
    } else if succ_adj {
        s.update(j, merge_into_succ(b, s[j]))
    } else {
        s.insert(j, b)
    }
}

} // verus!
