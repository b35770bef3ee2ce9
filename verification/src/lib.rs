//! Memory-management core of a freestanding kernel: a free-list heap
//! allocator with splitting and coalescing, a monotonic bump allocator,
//! and a physical frame allocator fed by a boot-reported memory map,
//! together with the small computational cores of the surrounding
//! drivers (boot-information parsing, text display state, interrupt
//! descriptor encoding).

pub mod align;
pub mod allocator;
pub mod bump_allocator;
pub mod free_list;
pub mod idt;
pub mod keyboard;
pub mod laws;
pub mod mem;
pub mod multiboot;
pub mod paging;
pub mod pit;
pub mod vga;
