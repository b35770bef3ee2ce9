//! The physical frame allocator: hands out fixed-size page frames
//! monotonically, from frame zero up to the highest frame covered by any
//! usable region of the boot-reported memory map.  Frames are never
//! reclaimed.

use vstd::prelude::*;
use crate::multiboot::MemoryMapEntry;

verus! {

/// Size in bytes of one physical frame.
pub const FRAME_SIZE: u64 = 0x200000;

/// Memory of this type is available for use.
pub const MEMORY_AVAILABLE: u32 = 1;

/// A monotonic allocator of physical page frames.
pub struct FrameAllocator {
    /// Index of the next frame to hand out.
    pub next_frame: u64,
    /// Index one past the last frame that may be handed out.
    pub max_frame: u64,
}

/// The region is marked usable by the boot loader.
pub open spec fn entry_usable(e: MemoryMapEntry) -> bool {
    e.typ == MEMORY_AVAILABLE
}

/// One-past-the-end address of a memory-map region.
pub open spec fn entry_end(e: MemoryMapEntry) -> int {
    e.base_addr + e.length
}

/// The frame index just past a region's end address.
pub open spec fn entry_frame(e: MemoryMapEntry) -> int {
    entry_end(e) / (FRAME_SIZE as int)
}

/// The highest `entry_frame` over the usable regions of the map (zero
/// when none is usable).
pub open spec fn max_usable_frame(s: Seq<MemoryMapEntry>) -> int
    decreases s.len(),
{
    if s.len() == 0 {
        0
    } else {
        let m = max_usable_frame(s.drop_last());
        let e = s.last();
        if entry_usable(e) && entry_frame(e) > m {
            entry_frame(e)
        } else {
            m
        }
    }
}

/// The maximum frame index stays within what a region end can reach.
proof fn lemma_max_usable_frame_bound(s: Seq<MemoryMapEntry>)
    requires
        forall|i: int| 0 <= i < s.len() ==> entry_end(#[trigger] s[i]) <= u64::MAX,
    ensures
        0 <= max_usable_frame(s) <= u64::MAX as int / FRAME_SIZE as int,
    decreases s.len(),
{
    if s.len() > 0 {
        lemma_max_usable_frame_bound(s.drop_last());
        let e = s.last();
        assert(entry_end(e) <= u64::MAX);
        vstd::arithmetic::div_mod::lemma_div_is_ordered(
            entry_end(e),
            u64::MAX as int,
            FRAME_SIZE as int,
        );
        vstd::arithmetic::div_mod::lemma_div_pos_is_pos(entry_end(e), FRAME_SIZE as int);
    }
}

impl FrameAllocator {
    /// Frames are handed out in order and the multiplication to a
    /// physical address cannot overflow.
    pub open spec fn wf(&self) -> bool {
        &&& self.next_frame <= self.max_frame
        &&& self.max_frame <= u64::MAX as int / FRAME_SIZE as int
    }

    /// Builds a frame allocator from the boot-reported memory map: the
    /// highest usable end address, in frames, bounds what may ever be
    /// handed out.
    ///
    /// The map must report at least one usable region, and no region may
    /// extend past the top of the address space.
    pub fn new(memory_map: &Vec<MemoryMapEntry>) -> (a: FrameAllocator)
        requires
            exists|i: int|
                0 <= i < memory_map@.len() && entry_usable(#[trigger] memory_map@[i]),
            forall|i: int|
                0 <= i < memory_map@.len() ==> entry_end(#[trigger] memory_map@[i]) <= u64::MAX,
        ensures
            a.next_frame == 0,
            a.max_frame == max_usable_frame(memory_map@),
            a.wf(),
    {
        let mut max: u64 = 0;
        let mut i: usize = 0;
        while i < memory_map.len()
            invariant
                i <= memory_map@.len(),
                forall|k: int|
                    0 <= k < memory_map@.len() ==> entry_end(#[trigger] memory_map@[k])
                        <= u64::MAX,
                max == max_usable_frame(memory_map@.take(i as int)),
            decreases memory_map@.len() - i,
        {
            let e = memory_map[i];
            proof {
                assert(memory_map@.take(i as int + 1).drop_last() =~= memory_map@.take(i as int));
                assert(memory_map@.take(i as int + 1).last() == memory_map@[i as int]);
                lemma_max_usable_frame_bound(memory_map@.take(i as int));
                vstd::arithmetic::div_mod::lemma_div_pos_is_pos(
                    entry_end(e),
                    FRAME_SIZE as int,
                );
            }
            if e.typ == MEMORY_AVAILABLE {
                let frame = (e.base_addr + e.length) / FRAME_SIZE;
                if frame > max {
                    max = frame;
                }
            }
            i = i + 1;
        }
        proof {
            assert(memory_map@.take(memory_map@.len() as int) =~= memory_map@);
            lemma_max_usable_frame_bound(memory_map@);
        }
        FrameAllocator { next_frame: 0, max_frame: max }
    }

    /// Hands out the next frame's physical address and advances, or
    /// returns nothing once every frame up to the map's limit has been
    /// handed out (frame exhaustion).  Frames are never reclaimed.
    pub fn allocate(&mut self) -> (r: Option<u64>)
        requires
            old(self).wf(),
        ensures
            final(self).wf(),
            final(self).max_frame == old(self).max_frame,
            (if old(self).next_frame < old(self).max_frame {
                &&& r == Some((old(self).next_frame * FRAME_SIZE) as u64)
                &&& final(self).next_frame == old(self).next_frame + 1
            } else {
                &&& r is None
                &&& final(self).next_frame == old(self).next_frame
            }),
    {
        if self.next_frame < self.max_frame {
            let frame = self.next_frame;
            self.next_frame = self.next_frame + 1;
            proof {
                assert(frame * FRAME_SIZE <= (u64::MAX as int / FRAME_SIZE as int) * (
                FRAME_SIZE as int)) by (nonlinear_arith)
                    requires
                        0 <= frame <= u64::MAX as int / FRAME_SIZE as int,
                ;
                vstd::arithmetic::div_mod::lemma_fundamental_div_mod(u64::MAX as int, FRAME_SIZE as int);
                vstd::arithmetic::div_mod::lemma_mod_division_less_than_divisor(
                    u64::MAX as int,
                    FRAME_SIZE as int,
                );
            }
            Some(frame * FRAME_SIZE)
        } else {
            None
        }
    }
}

} // verus!
