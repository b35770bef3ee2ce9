use kmem::bump_allocator::BumpAllocator;
use kmem::multiboot::MemoryMapEntry;
use kmem::paging::{FrameAllocator, FRAME_SIZE};

#[test]
fn align_up_rounds_to_multiples() {
    assert_eq!(BumpAllocator::align_up(13, 8), 16);
    assert_eq!(BumpAllocator::align_up(16, 8), 16);
    assert_eq!(BumpAllocator::align_up(0, 4096), 0);
    assert_eq!(BumpAllocator::align_up(1, 4096), 4096);
    assert_eq!(BumpAllocator::align_up(100, 1), 100);
}

#[test]
fn bump_advances_monotonically() {
    let mut b = BumpAllocator::new();
    b.init(0x1000, 0x1000);
    let p1 = b.allocate(10, 8).expect("first");
    assert_eq!(p1, 0x1000);
    let p2 = b.allocate(5, 8).expect("second");
    assert_eq!(p2, 0x1010);
    let p3 = b.allocate(1, 1).expect("third");
    assert_eq!(p3, 0x1015);
    assert!(p1 < p2 && p2 < p3);
}

#[test]
fn bump_alignment() {
    let mut b = BumpAllocator::new();
    b.init(0x1001, 0x10000);
    for &al in [1usize, 2, 4, 8, 16, 64, 512, 4096].iter() {
        let p = b.allocate(3, al).expect("aligned bump allocation");
        assert_eq!(p % al, 0);
    }
}

#[test]
fn bump_exhaustion_fails_without_moving() {
    let mut b = BumpAllocator::new();
    b.init(0x2000, 100);
    assert_eq!(b.allocate(101, 1), None);
    let p = b.allocate(100, 1).expect("exactly fits");
    assert_eq!(p, 0x2000);
    assert_eq!(b.allocate(1, 1), None);
}

#[test]
fn bump_never_reclaims() {
    let mut b = BumpAllocator::new();
    b.init(0x3000, 0x100);
    let p1 = b.allocate(0x80, 1).expect("first");
    b.dealloc(p1, 0x80, 1);
    // The freed bytes are not reused: the cursor has moved past them.
    let p2 = b.allocate(0x80, 1).expect("second");
    assert_ne!(p2, p1);
    assert_eq!(b.allocate(1, 1), None);
}

#[test]
fn uninitialized_bump_fails() {
    let mut b = BumpAllocator::new();
    assert_eq!(b.allocate(1, 1), None);
}

fn entry(base: u64, length: u64, typ: u32) -> MemoryMapEntry {
    MemoryMapEntry { base_addr: base, length, typ, reserved: 0 }
}

#[test]
fn frames_come_out_in_order() {
    let map = vec![entry(0, 2 * FRAME_SIZE, 1)];
    let mut f = FrameAllocator::new(&map);
    assert_eq!(f.allocate(), Some(0));
    assert_eq!(f.allocate(), Some(FRAME_SIZE));
    assert_eq!(f.allocate(), None);
    assert_eq!(f.allocate(), None);
}

#[test]
fn reserved_regions_do_not_raise_the_limit() {
    let map = vec![
        entry(0, FRAME_SIZE, 1),
        entry(FRAME_SIZE, 100 * FRAME_SIZE, 2),
    ];
    let mut f = FrameAllocator::new(&map);
    assert_eq!(f.allocate(), Some(0));
    assert_eq!(f.allocate(), None);
}

#[test]
fn highest_usable_region_sets_the_limit() {
    let map = vec![
        entry(0, FRAME_SIZE, 1),
        entry(4 * FRAME_SIZE, FRAME_SIZE, 1),
    ];
    let mut f = FrameAllocator::new(&map);
    let mut count = 0;
    while let Some(addr) = f.allocate() {
        assert_eq!(addr % FRAME_SIZE, 0);
        count += 1;
    }
    assert_eq!(count, 5);
}

#[test]
fn partial_last_frame_is_not_handed_out() {
    // A usable region ending mid-frame only reaches the frame below it.
    let map = vec![entry(0, FRAME_SIZE + FRAME_SIZE / 2, 1)];
    let mut f = FrameAllocator::new(&map);
    assert_eq!(f.allocate(), Some(0));
    assert_eq!(f.allocate(), None);
}
