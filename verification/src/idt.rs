//! Construction of the interrupt descriptor table: 256 entries, each
//! encoding a handler address split across three offset fields together
//! with the code-segment selector and the dispatch options.
//! Loading the finished table into the CPU happens at the hardware
//! boundary; building it is plain data manipulation and is checked here.

use vstd::prelude::*;

verus! {

/// Number of entries in the interrupt descriptor table.
pub const IDT_ENTRIES: usize = 256;

/// Code-segment selector installed in every entry.
pub const KERNEL_CODE_SELECTOR: u16 = 0x08;

/// Dispatch options: present, ring zero, interrupt type.
pub const INTERRUPT_GATE_OPTIONS: u16 = 0x8E00;

/// One entry of the interrupt descriptor table.
#[derive(Clone, Copy, PartialEq, Eq, Structural, Debug)]
pub struct IdtEntry {
    pub offset_low: u16,
    pub selector: u16,
    pub options: u16,
    pub offset_mid: u16,
    pub offset_high: u32,
    pub reserved: u32,
}

/// The all-zero entry that fills the table before a handler is set.
pub open spec fn zero_entry() -> IdtEntry {
    IdtEntry {
        offset_low: 0,
        selector: 0,
        options: 0,
        offset_mid: 0,
        offset_high: 0,
        reserved: 0,
    }
}

/// The entry that dispatches to the handler at `addr`: the address's low,
/// middle and high parts spread over the three offset fields.
pub open spec fn entry_for(addr: u64) -> IdtEntry {
    IdtEntry {
        offset_low: (addr & 0xffff) as u16,
        selector: KERNEL_CODE_SELECTOR,
        options: INTERRUPT_GATE_OPTIONS,
        offset_mid: ((addr >> 16) & 0xffff) as u16,
        offset_high: (addr >> 32) as u32,
        reserved: 0,
    }
}

/// The three offset fields of `entry_for(addr)` reassemble to exactly
/// `addr`: the encoding loses nothing.
pub proof fn lemma_entry_encodes(addr: u64)
    ensures
        entry_for(addr).offset_low + entry_for(addr).offset_mid * 0x1_0000 + entry_for(
            addr,
        ).offset_high * 0x1_0000_0000 == addr,
{
    assert(((addr & 0xffff) as u16) as u64 == (addr & 0xffff)) by (bit_vector);
    assert((((addr >> 16) & 0xffff) as u16) as u64 == ((addr >> 16) & 0xffff)) by (bit_vector);
    assert(((addr >> 32) as u32) as u64 == (addr >> 32)) by (bit_vector);
    assert((addr & 0xffff) + ((addr >> 16) & 0xffff) * 0x1_0000 + (addr >> 32) * 0x1_0000_0000
        == addr) by (bit_vector);
}

/// An interrupt descriptor table under construction.
pub struct Idt {
    /// The `IDT_ENTRIES` entries.
    pub entries: Vec<IdtEntry>,
}

impl Idt {
    /// The table has exactly one entry per vector.
    pub open spec fn wf(&self) -> bool {
        self.entries@.len() == IDT_ENTRIES
    }

    /// A table of all-zero entries: no handler installed anywhere.
    pub fn new() -> (t: Idt)
        ensures
            t.wf(),
            forall|i: int| 0 <= i < t.entries@.len() ==> t.entries@[i] == zero_entry(),
    {
        let mut entries: Vec<IdtEntry> = Vec::new();
        let mut i: usize = 0;
        while i < IDT_ENTRIES
            invariant
                i <= IDT_ENTRIES,
                entries@.len() == i,
                forall|k: int| 0 <= k < i ==> entries@[k] == zero_entry(),
            decreases IDT_ENTRIES - i,
        {
            entries.push(
                IdtEntry {
                    offset_low: 0,
                    selector: 0,
                    options: 0,
                    offset_mid: 0,
                    offset_high: 0,
                    reserved: 0,
                },
            );
            i = i + 1;
        }
        Idt { entries }
    }

    /// Installs the handler at address `handler_addr` in the entry for
    /// interrupt `vector`, leaving every other entry as it was.
    pub fn set_handler(&mut self, vector: usize, handler_addr: u64)
        requires
            old(self).wf(),
            vector < IDT_ENTRIES,
        ensures
            final(self).wf(),
            final(self).entries@ == old(self).entries@.update(
                vector as int,
                entry_for(handler_addr),
            ),
    {
        proof {
            assert((handler_addr & 0xffff) <= 0xffff) by (bit_vector);
            assert(((handler_addr >> 16) & 0xffff) <= 0xffff) by (bit_vector);
            assert((handler_addr >> 32) <= 0xffff_ffff) by (bit_vector);
        }
        let entry = IdtEntry {
            offset_low: (handler_addr & 0xffff) as u16,
            selector: KERNEL_CODE_SELECTOR,
            options: INTERRUPT_GATE_OPTIONS,
            offset_mid: ((handler_addr >> 16) & 0xffff) as u16,
            offset_high: (handler_addr >> 32) as u32,
            reserved: 0,
        };
        self.entries.set(vector, entry);
    }
}

} // verus!
