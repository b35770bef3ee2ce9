//! Boot-information parsing: the magic-number check and the walk over
//! the boot loader's tag list that extracts the memory map.
//!
//! The boot loader leaves a tag list in memory: an eight-byte header
//! (total size and a reserved word) followed by tags, each headed by a
//! type and a size and padded to eight-byte alignment, ended by a tag of
//! type zero.  The memory-map tag (type six) carries, after its
//! sixteen-byte header, one entry per region of physical memory.  All
//! fields are little-endian.  Here the list is read from a byte buffer
//! with every access bounds-checked; the caller copies the raw bytes in.

use vstd::prelude::*;

verus! {

/// The value the boot loader leaves in the register that identifies a
/// multiboot2 hand-off.
pub const MULTIBOOT2_MAGIC: u32 = 0x36d76289;

/// Fixed header in front of the boot-information tag list.
#[derive(Clone, Copy, PartialEq, Eq, Structural, Debug)]
pub struct MultibootTagHeader {
    pub total_size: u32,
    pub reserved: u32,
}

/// Header shared by every tag in the list.
#[derive(Clone, Copy, PartialEq, Eq, Structural, Debug)]
pub struct MultibootTag {
    pub typ: u32,
    pub size: u32,
}

/// Header of the memory-map tag.
#[derive(Clone, Copy, PartialEq, Eq, Structural, Debug)]
pub struct MemoryMapTag {
    pub typ: u32,
    pub size: u32,
    pub entry_size: u32,
    pub entry_version: u32,
}

/// One region of the boot-reported memory map.  A `typ` of one marks the
/// region as available; every other value is reserved in some way.
#[derive(Clone, Copy, PartialEq, Eq, Structural, Debug)]
pub struct MemoryMapEntry {
    pub base_addr: u64,
    pub length: u64,
    pub typ: u32,
    pub reserved: u32,
}

/// Size in bytes of the tag-list header.
pub const HEADER_BYTES: usize = 8;

/// Size in bytes of the memory-map tag's own header.
pub const MMAP_TAG_HEADER_BYTES: usize = 16;

/// Size in bytes of one memory-map entry as this kernel reads it.
pub const MMAP_ENTRY_BYTES: usize = 24;

/// Tag type of the list terminator.
pub const TAG_END: u32 = 0;

/// Tag type of the memory map.
pub const TAG_MEMORY_MAP: u32 = 6;

/// The little-endian 32-bit value stored at byte offset `off`.
pub open spec fn le32(s: Seq<u8>, off: int) -> int {
    s[off] + 0x100 * s[off + 1] + 0x1_0000 * s[off + 2] + 0x100_0000 * s[off + 3]
}

/// The little-endian 64-bit value stored at byte offset `off`.
pub open spec fn le64(s: Seq<u8>, off: int) -> int {
    le32(s, off) + 0x1_0000_0000 * le32(s, off + 4)
}

/// Reads the little-endian 32-bit value at byte offset `off`.
pub fn read_u32(data: &Vec<u8>, off: usize) -> (r: u32)
    requires
        off + 4 <= data@.len(),
    ensures
        r == le32(data@, off as int),
{
    let _n: usize = data.len();
    (data[off] as u32) + 0x100 * (data[off + 1] as u32) + 0x1_0000 * (data[off + 2] as u32)
        + 0x100_0000 * (data[off + 3] as u32)
}

/// Reads the little-endian 64-bit value at byte offset `off`.
pub fn read_u64(data: &Vec<u8>, off: usize) -> (r: u64)
    requires
        off + 8 <= data@.len(),
    ensures
        r == le64(data@, off as int),
{
    let _n: usize = data.len();
    let lo = read_u32(data, off);
    let hi = read_u32(data, off + 4);
    (lo as u64) + 0x1_0000_0000 * (hi as u64)
}

/// Checks the boot loader's magic number.
pub fn check_magic(magic: u32) -> (ok: bool)
    ensures
        ok == (magic == MULTIBOOT2_MAGIC),
{
    magic == MULTIBOOT2_MAGIC
}

/// The memory-map entry stored at byte offset `off`.
pub open spec fn spec_entry_at(s: Seq<u8>, off: int) -> MemoryMapEntry {
    MemoryMapEntry {
        base_addr: le64(s, off) as u64,
        length: le64(s, off + 8) as u64,
        typ: le32(s, off + 16) as u32,
        reserved: le32(s, off + 20) as u32,
    }
}

/// Reads the memory-map entry at byte offset `off`.
pub fn read_entry(data: &Vec<u8>, off: usize) -> (e: MemoryMapEntry)
    requires
        off + MMAP_ENTRY_BYTES <= data@.len(),
    ensures
        e == spec_entry_at(data@, off as int),
{
    let _n: usize = data.len();
    MemoryMapEntry {
        base_addr: read_u64(data, off),
        length: read_u64(data, off + 8),
        typ: read_u32(data, off + 16),
        reserved: read_u32(data, off + 20),
    }
}

/// The `n` memory-map entries laid out from byte offset `off`, each
/// `stride` bytes after the previous one.
pub open spec fn spec_entries(s: Seq<u8>, off: int, n: nat, stride: int) -> Seq<MemoryMapEntry>
    decreases n,
{
    if n == 0 {
        Seq::empty()
    } else {
        seq![spec_entry_at(s, off)] + spec_entries(s, off + stride, (n - 1) as nat, stride)
    }
}

/// Appending the next laid-out entry extends the sequence by one.
proof fn lemma_spec_entries_step(s: Seq<u8>, off: int, n: nat, stride: int, i: nat)
    requires
        i < n,
    ensures
        spec_entries(s, off, (i + 1) as nat, stride) == spec_entries(s, off, i, stride).push(
            spec_entry_at(s, off + i * stride),
        ),
    decreases i,
{
    if i == 0 {
        assert(spec_entries(s, off + stride, 0, stride) =~= Seq::<MemoryMapEntry>::empty());
        assert(spec_entries(s, off, 1, stride) =~= Seq::<MemoryMapEntry>::empty().push(
            spec_entry_at(s, off),
        ));
    } else {
        lemma_spec_entries_step(s, off + stride, (n - 1) as nat, stride, (i - 1) as nat);
        assert(off + stride + (i - 1) * stride == off + i * stride) by (nonlinear_arith);
        assert(spec_entries(s, off, (i + 1) as nat, stride) =~= seq![
            spec_entry_at(s, off),
        ] + spec_entries(s, off + stride, i, stride));
        assert(spec_entries(s, off, i, stride).push(spec_entry_at(s, off + i * stride)) =~= seq![
            spec_entry_at(s, off),
        ] + spec_entries(s, off + stride, (i - 1) as nat, stride).push(
            spec_entry_at(s, off + i * stride),
        ));
    }
}

/// A memory-map tag at byte offset `t` is well-formed: its header fits,
/// its declared size fits in the buffer, and its declared entry size is
/// at least one entry's worth of bytes.
pub open spec fn mm_tag_valid(s: Seq<u8>, t: int) -> bool {
    &&& t + MMAP_TAG_HEADER_BYTES <= s.len()
    &&& t + le32(s, t + 4) <= s.len()
    &&& le32(s, t + 4) >= MMAP_TAG_HEADER_BYTES
    &&& le32(s, t + 8) >= MMAP_ENTRY_BYTES
}

/// How many entries the memory-map tag at byte offset `t` carries.
pub open spec fn mm_tag_count(s: Seq<u8>, t: int) -> int {
    (le32(s, t + 4) - MMAP_TAG_HEADER_BYTES) / le32(s, t + 8)
}

/// The entries carried by the memory-map tag at byte offset `t`.
pub open spec fn mm_tag_entries(s: Seq<u8>, t: int) -> Seq<MemoryMapEntry> {
    spec_entries(
        s,
        t + MMAP_TAG_HEADER_BYTES,
        mm_tag_count(s, t) as nat,
        le32(s, t + 8),
    )
}

/// Extracts the entries of the memory-map tag at byte offset `tag_off`,
/// or nothing when the tag's declared sizes do not fit the buffer.
pub fn parse_memory_map(data: &Vec<u8>, tag_off: usize) -> (r: Option<Vec<MemoryMapEntry>>)
    requires
        tag_off + HEADER_BYTES <= data@.len(),
    ensures
        match r {
            Some(v) => mm_tag_valid(data@, tag_off as int) && v@ == mm_tag_entries(
                data@,
                tag_off as int,
            ),
            None => !mm_tag_valid(data@, tag_off as int),
        },
{
    if data.len() < MMAP_TAG_HEADER_BYTES || tag_off > data.len() - MMAP_TAG_HEADER_BYTES {
        return None;
    }
    let size = read_u32(data, tag_off + 4);
    let entry_size = read_u32(data, tag_off + 8);
    if (size as usize) < MMAP_TAG_HEADER_BYTES || (entry_size as usize) < MMAP_ENTRY_BYTES {
        return None;
    }
    if size as usize > data.len() - tag_off {
        return None;
    }
    let stride = entry_size as usize;
    let count = (size as usize - MMAP_TAG_HEADER_BYTES) / stride;
    let ghost gcount = mm_tag_count(data@, tag_off as int);
    proof {
        assert(gcount == count);
        vstd::arithmetic::div_mod::lemma_fundamental_div_mod(
            (size - MMAP_TAG_HEADER_BYTES) as int,
            stride as int,
        );
        vstd::arithmetic::div_mod::lemma_mod_division_less_than_divisor(
            (size - MMAP_TAG_HEADER_BYTES) as int,
            stride as int,
        );
        assert(count * stride <= size - MMAP_TAG_HEADER_BYTES);
    }
    let mut v: Vec<MemoryMapEntry> = Vec::new();
    let mut i: usize = 0;
    let base = tag_off + MMAP_TAG_HEADER_BYTES;
    while i < count
        invariant
            i <= count,
            base == tag_off + MMAP_TAG_HEADER_BYTES,
            stride >= MMAP_ENTRY_BYTES,
            count * stride <= size - MMAP_TAG_HEADER_BYTES,
            MMAP_TAG_HEADER_BYTES <= size <= data@.len() - tag_off,
            data@.len() <= usize::MAX,
            v@ == spec_entries(data@, base as int, i as nat, stride as int),
            v@.len() == i,
        decreases count - i,
    {
        proof {
            assert((i + 1) * stride <= count * stride && i * stride + stride == (i + 1)
                * stride) by (nonlinear_arith)
                requires
                    i < count,
                    stride >= 0,
            ;
            assert(i * stride >= 0) by (nonlinear_arith)
                requires
                    i >= 0,
                    stride >= 0,
            ;
        }
        let off = base + i * stride;
        let e = read_entry(data, off);
        v.push(e);
        proof {
            lemma_spec_entries_step(data@, base as int, count as nat, stride as int, i as nat);
        }
        i = i + 1;
    }
    Some(v)
}

/// `x` rounded up to the next multiple of eight: tags are padded so that
/// each one starts on an eight-byte boundary.
pub open spec fn align8(x: int) -> int {
    ((x + 7) / 8) * 8
}

/// Rounds a tag offset up to the next multiple of eight.
fn align8_up(x: usize) -> (r: usize)
    requires
        x + 7 <= usize::MAX,
    ensures
        r == align8(x as int),
        x <= r < x + 8,
        r % 8 == 0,
{
    proof {
        vstd::arithmetic::div_mod::lemma_fundamental_div_mod(x as int + 7, 8);
        vstd::arithmetic::div_mod::lemma_mod_division_less_than_divisor(x as int + 7, 8);
        vstd::arithmetic::div_mod::lemma_mod_multiples_basic((x as int + 7) / 8, 8);
    }
    ((x + 7) / 8) * 8
}

/// The memory map found by walking the tag list from byte offset `off`:
/// the entries of the first memory-map tag, an empty sequence when the
/// terminator comes first, or nothing when the list is malformed (a tag
/// header that does not fit the buffer, a tag size below the header
/// size, or a memory-map tag whose declared sizes do not fit).
pub open spec fn spec_parse_tags(s: Seq<u8>, off: int) -> Option<Seq<MemoryMapEntry>>
    decreases s.len() - off,
{
    if off < 0 || off + HEADER_BYTES > s.len() {
        None
    } else {
        let typ = le32(s, off);
        let size = le32(s, off + 4);
        if typ == TAG_END {
            Some(Seq::empty())
        } else if size < HEADER_BYTES {
            None
        } else if typ == TAG_MEMORY_MAP {
            if mm_tag_valid(s, off) {
                Some(mm_tag_entries(s, off))
            } else {
                None
            }
        } else {
            let next = align8(off + size);
            if next > s.len() {
                None
            } else {
                spec_parse_tags(s, next)
            }
        }
    }
}

/// Walks the boot-information tag list and returns the entries of its
/// memory-map tag: an empty list when no such tag is present, or nothing
/// when the tag list is malformed.
pub fn parse_info(data: &Vec<u8>) -> (r: Option<Vec<MemoryMapEntry>>)
    ensures
        match r {
            Some(v) => spec_parse_tags(data@, HEADER_BYTES as int) == Some(v@),
            None => spec_parse_tags(data@, HEADER_BYTES as int) is None,
        },
{
    let mut off: usize = HEADER_BYTES;
    loop
        invariant
            HEADER_BYTES <= off,
            off <= usize::MAX,
            spec_parse_tags(data@, HEADER_BYTES as int) == spec_parse_tags(data@, off as int),
        decreases data@.len() - off,
    {
        if off > data.len() || data.len() - off < HEADER_BYTES {
            return None;
        }
        let typ = read_u32(data, off);
        let size = read_u32(data, off + 4);
        if typ == TAG_END {
            return Some(Vec::new());
        }
        if (size as usize) < HEADER_BYTES {
            return None;
        }
        if typ == TAG_MEMORY_MAP {
            return parse_memory_map(data, off);
        }
        if size as usize > usize::MAX - 7 - off {
            // The padded end of this tag overflows the address space, so
            // it cannot lie inside the buffer.
            proof {
                assert(align8(off as int + le32(data@, off as int + 4)) > data@.len());
            }
            return None;
        }
        let next = align8_up(off + size as usize);
        if next > data.len() {
            return None;
        }
        off = next;
    }
}

} // verus!
