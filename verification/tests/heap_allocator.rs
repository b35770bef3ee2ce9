use kmem::allocator::Allocator;
use kmem::free_list::HEADER_SIZE;

const START: usize = 0x10000;
const SIZE: usize = 4096;

fn fresh() -> Allocator {
    let mut a = Allocator::new();
    a.init(START, SIZE);
    a
}

#[test]
fn uninitialized_allocator_fails() {
    let mut a = Allocator::new();
    assert_eq!(a.allocate(1, 1), None);
    assert_eq!(a.free_count(), 0);
}

#[test]
fn init_single_block() {
    let a = fresh();
    assert_eq!(a.free_count(), 1);
    let b = a.free_block_at(0);
    assert_eq!(b.addr, START);
    assert_eq!(b.size, SIZE - HEADER_SIZE);
    assert_eq!(a.live_count(), 0);
}

#[test]
fn scenario_small_then_oversized_then_restore() {
    // Region of 4096 bytes: a small aligned allocation succeeds, an
    // oversized one fails, and returning the first restores one block.
    let mut a = fresh();
    let p = a.allocate(100, 8).expect("first allocation must succeed");
    assert_eq!(p % 8, 0);
    assert_eq!(a.allocate(5000, 8), None);
    a.deallocate(p, 100, 8);
    assert_eq!(a.free_count(), 1);
    let b = a.free_block_at(0);
    assert_eq!(b.addr, START);
    assert_eq!(b.size, SIZE - HEADER_SIZE);
    assert_eq!(a.live_count(), 0);
}

#[test]
fn scenario_first_fit_reuses_freed_block() {
    // Two sequential 50-byte allocations, free the first, allocate 50
    // again: the freed block is reused rather than the heap growing.
    let mut a = fresh();
    let p1 = a.allocate(50, 1).expect("first allocation");
    let p2 = a.allocate(50, 1).expect("second allocation");
    assert_ne!(p1, p2);
    a.deallocate(p1, 50, 1);
    let p3 = a.allocate(50, 1).expect("third allocation");
    assert_eq!(p3, p1);
}

#[test]
fn scenario_coalescing_is_order_independent() {
    // Allocate three adjacent blocks, free them middle-first: after all
    // three frees the list is exactly one block spanning the region.
    let mut a = fresh();
    let pa = a.allocate(100, 1).expect("block a");
    let pb = a.allocate(100, 1).expect("block b");
    let pc = a.allocate(100, 1).expect("block c");
    a.deallocate(pb, 100, 1);
    a.deallocate(pa, 100, 1);
    a.deallocate(pc, 100, 1);
    assert_eq!(a.free_count(), 1);
    let b = a.free_block_at(0);
    assert_eq!(b.addr, START);
    assert_eq!(b.size, SIZE - HEADER_SIZE);
}

#[test]
fn round_trip_restores_initial_shape() {
    let mut a = fresh();
    let p = a.allocate(128, 16).expect("allocation");
    assert_eq!(a.live_count(), 1);
    a.deallocate(p, 128, 16);
    assert_eq!(a.live_count(), 0);
    assert_eq!(a.free_count(), 1);
    let b = a.free_block_at(0);
    assert_eq!(b.addr, START);
    assert_eq!(b.size, SIZE - HEADER_SIZE);
}

#[test]
fn returned_pointers_are_aligned() {
    let aligns: [usize; 13] = [1, 2, 4, 8, 16, 32, 64, 128, 256, 512, 1024, 2048, 4096];
    for &al in aligns.iter() {
        let mut a = Allocator::new();
        a.init(START + 8, 3 * 4096);
        let p = a.allocate(7, al).expect("aligned allocation");
        assert_eq!(p % al, 0);
    }
}

#[test]
fn exhaustion_returns_failure() {
    let mut a = fresh();
    // More than the region can ever serve: fails without touching it.
    assert_eq!(a.allocate(SIZE, 1), None);
    assert_eq!(a.allocate(SIZE - HEADER_SIZE + 1, 1), None);
    assert_eq!(a.free_count(), 1);
    // Exactly the payload of the single block: succeeds.
    let p = a.allocate(SIZE - HEADER_SIZE, 1).expect("full-region allocation");
    assert_eq!(p, START + HEADER_SIZE);
    assert_eq!(a.allocate(1, 1), None);
}

#[test]
fn repeated_allocation_stops_at_failure() {
    let mut a = fresh();
    let mut total: usize = 0;
    let mut count: usize = 0;
    while let Some(_p) = a.allocate(100, 1) {
        total += 100;
        count += 1;
        assert!(count < 100, "allocation must fail before the region is overdrawn");
    }
    assert!(total <= SIZE);
    assert_eq!(a.live_count(), count);
}

#[test]
fn conservation_holds_at_every_quiescent_point() {
    let mut a = fresh();
    assert_eq!(a.free_bytes() + a.live_bytes(), SIZE);
    let p1 = a.allocate(100, 8).expect("p1");
    assert_eq!(a.free_bytes() + a.live_bytes(), SIZE);
    let p2 = a.allocate(333, 4).expect("p2");
    assert_eq!(a.free_bytes() + a.live_bytes(), SIZE);
    a.deallocate(p1, 100, 8);
    assert_eq!(a.free_bytes() + a.live_bytes(), SIZE);
    let p3 = a.allocate(64, 64).expect("p3");
    assert_eq!(a.free_bytes() + a.live_bytes(), SIZE);
    a.deallocate(p3, 64, 64);
    a.deallocate(p2, 333, 4);
    assert_eq!(a.free_bytes() + a.live_bytes(), SIZE);
    assert_eq!(a.free_bytes(), SIZE);
}

#[test]
fn free_list_stays_sorted_and_gap_separated() {
    let mut a = fresh();
    let mut ptrs = Vec::new();
    for _ in 0..8 {
        ptrs.push(a.allocate(60, 4).expect("allocation"));
    }
    // Free every other block: the survivors keep the list fragmented.
    for (i, &p) in ptrs.iter().enumerate() {
        if i % 2 == 0 {
            a.deallocate(p, 60, 4);
        }
    }
    let n = a.free_count();
    assert!(n >= 2);
    for i in 0..n - 1 {
        let b = a.free_block_at(i);
        let c = a.free_block_at(i + 1);
        assert!(b.addr < c.addr, "free list must be address-sorted");
        assert!(
            b.addr + HEADER_SIZE + b.size < c.addr,
            "no two free blocks may be byte-adjacent"
        );
    }
}

#[test]
fn split_can_leave_a_zero_payload_block() {
    // Carving all but exactly one header's worth leaves a free block
    // with an empty payload; it serves nothing but is coalesced back.
    let mut a = fresh();
    let payload = SIZE - HEADER_SIZE;
    let p = a.allocate(payload - HEADER_SIZE, 1).expect("near-full allocation");
    assert_eq!(a.free_count(), 1);
    assert_eq!(a.free_block_at(0).size, 0);
    assert_eq!(a.allocate(1, 1), None);
    a.deallocate(p, payload - HEADER_SIZE, 1);
    assert_eq!(a.free_count(), 1);
    assert_eq!(a.free_block_at(0).size, payload);
}

#[test]
fn alignment_beyond_the_region_fails_cleanly() {
    let mut a = Allocator::new();
    a.init(0x10000 + 8, 64);
    // Rounding the payload up to this alignment leaves the block.
    assert_eq!(a.allocate(1, 65536), None);
    assert_eq!(a.free_count(), 1);
    assert_eq!(a.free_bytes(), 64);
}

#[test]
fn padding_is_reclaimed_with_the_block() {
    // An allocation whose alignment forces padding still returns the
    // whole block, padding included, on deallocation.
    let mut a = Allocator::new();
    a.init(START + 4, SIZE);
    let p = a.allocate(40, 64).expect("padded allocation");
    assert_eq!(p % 64, 0);
    a.deallocate(p, 40, 64);
    assert_eq!(a.free_count(), 1);
    let b = a.free_block_at(0);
    assert_eq!(b.addr, START + 4);
    assert_eq!(b.size, SIZE - HEADER_SIZE);
}
