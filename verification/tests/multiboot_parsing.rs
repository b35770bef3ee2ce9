use kmem::multiboot::{check_magic, parse_info, parse_memory_map, read_u32, read_u64,
    MULTIBOOT2_MAGIC};

fn push_u32(buf: &mut Vec<u8>, v: u32) {
    buf.push((v & 0xff) as u8);
    buf.push(((v >> 8) & 0xff) as u8);
    buf.push(((v >> 16) & 0xff) as u8);
    buf.push(((v >> 24) & 0xff) as u8);
}

fn push_u64(buf: &mut Vec<u8>, v: u64) {
    push_u32(buf, (v & 0xffff_ffff) as u32);
    push_u32(buf, (v >> 32) as u32);
}

fn push_entry(buf: &mut Vec<u8>, base: u64, length: u64, typ: u32) {
    push_u64(buf, base);
    push_u64(buf, length);
    push_u32(buf, typ);
    push_u32(buf, 0);
}

/// The eight-byte boot-information header.
fn header(total_size: u32) -> Vec<u8> {
    let mut buf = Vec::new();
    push_u32(&mut buf, total_size);
    push_u32(&mut buf, 0);
    buf
}

fn push_terminator(buf: &mut Vec<u8>) {
    push_u32(buf, 0);
    push_u32(buf, 8);
}

#[test]
fn magic_is_checked_exactly() {
    assert!(check_magic(MULTIBOOT2_MAGIC));
    assert!(check_magic(0x36d76289));
    assert!(!check_magic(0));
    assert!(!check_magic(0x36d7628a));
    assert!(!check_magic(0x2badb002));
}

#[test]
fn little_endian_reads() {
    let buf = vec![0x78, 0x56, 0x34, 0x12, 0xf0, 0xde, 0xbc, 0x9a];
    assert_eq!(read_u32(&buf, 0), 0x12345678);
    assert_eq!(read_u32(&buf, 4), 0x9abcdef0);
    assert_eq!(read_u64(&buf, 0), 0x9abcdef0_12345678);
}

#[test]
fn memory_map_tag_is_extracted() {
    let mut buf = header(8 + 40 + 8);
    // Memory-map tag: type six, one 24-byte entry.
    push_u32(&mut buf, 6);
    push_u32(&mut buf, 16 + 24);
    push_u32(&mut buf, 24);
    push_u32(&mut buf, 0);
    push_entry(&mut buf, 0x1000, 0x2000, 1);
    push_terminator(&mut buf);
    let entries = parse_info(&buf).expect("well-formed tag list");
    assert_eq!(entries.len(), 1);
    assert_eq!(entries[0].base_addr, 0x1000);
    assert_eq!(entries[0].length, 0x2000);
    assert_eq!(entries[0].typ, 1);
}

#[test]
fn unknown_tags_are_skipped_with_padding() {
    let mut buf = header(8 + 16 + 64 + 8);
    // An unknown tag whose size is not a multiple of eight: the walk
    // must skip to the next eight-byte boundary.
    push_u32(&mut buf, 4);
    push_u32(&mut buf, 12);
    push_u32(&mut buf, 0xdead_beef);
    push_u32(&mut buf, 0); // padding to eight bytes
    // The memory-map tag with two entries.
    push_u32(&mut buf, 6);
    push_u32(&mut buf, 16 + 48);
    push_u32(&mut buf, 24);
    push_u32(&mut buf, 0);
    push_entry(&mut buf, 0, 0x9fc00, 1);
    push_entry(&mut buf, 0x100000, 0x7ee0000, 2);
    push_terminator(&mut buf);
    let entries = parse_info(&buf).expect("well-formed tag list");
    assert_eq!(entries.len(), 2);
    assert_eq!(entries[0].base_addr, 0);
    assert_eq!(entries[0].length, 0x9fc00);
    assert_eq!(entries[1].base_addr, 0x100000);
    assert_eq!(entries[1].typ, 2);
}

#[test]
fn terminator_without_memory_map_gives_empty() {
    let mut buf = header(16);
    push_terminator(&mut buf);
    let entries = parse_info(&buf).expect("well-formed tag list");
    assert!(entries.is_empty());
}

#[test]
fn truncated_list_is_rejected() {
    // No terminator and not enough bytes for another tag header.
    let buf = header(8);
    assert_eq!(parse_info(&buf), None);
    assert_eq!(parse_info(&Vec::new()), None);
}

#[test]
fn undersized_tag_is_rejected() {
    let mut buf = header(24);
    push_u32(&mut buf, 4);
    push_u32(&mut buf, 4); // smaller than a tag header: cannot advance
    push_terminator(&mut buf);
    assert_eq!(parse_info(&buf), None);
}

#[test]
fn oversized_memory_map_tag_is_rejected() {
    let mut buf = header(8 + 40);
    push_u32(&mut buf, 6);
    push_u32(&mut buf, 4096); // declared size runs past the buffer
    push_u32(&mut buf, 24);
    push_u32(&mut buf, 0);
    push_entry(&mut buf, 0x1000, 0x2000, 1);
    assert_eq!(parse_info(&buf), None);
}

#[test]
fn memory_map_entries_respect_declared_stride() {
    // entry_size of 32: each entry is read 32 bytes after the previous.
    let mut buf = header(8 + 16 + 64);
    let tag_off = buf.len();
    push_u32(&mut buf, 6);
    push_u32(&mut buf, 16 + 64);
    push_u32(&mut buf, 32);
    push_u32(&mut buf, 0);
    push_entry(&mut buf, 0x1000, 0x1000, 1);
    push_u64(&mut buf, 0); // the entry's trailing eight unused bytes
    push_entry(&mut buf, 0x4000, 0x2000, 2);
    push_u64(&mut buf, 0);
    let entries = parse_memory_map(&buf, tag_off).expect("valid memory-map tag");
    assert_eq!(entries.len(), 2);
    assert_eq!(entries[0].base_addr, 0x1000);
    assert_eq!(entries[1].base_addr, 0x4000);
    assert_eq!(entries[1].length, 0x2000);
}
