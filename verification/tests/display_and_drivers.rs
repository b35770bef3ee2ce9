use kmem::idt::{Idt, IdtEntry, INTERRUPT_GATE_OPTIONS, KERNEL_CODE_SELECTOR};
use kmem::keyboard::{key_output, KeyInput, RawKey};
use kmem::mem::{memcmp, memcpy, memset};
use kmem::pit::{divisor_bytes, pit_divisor, PIT_FREQ};
use kmem::vga::{Color, Screen, VgaWriter, BUF_HEIGHT, BUF_WIDTH};

fn cell(c: u8, fg: Color, bg: Color) -> u16 {
    ((bg.code() as u16 * 16 + fg.code() as u16) << 8) | c as u16
}

#[test]
fn color_codes_match_the_hardware_palette() {
    assert_eq!(Color::Black.code(), 0x0);
    assert_eq!(Color::Blue.code(), 0x1);
    assert_eq!(Color::Green.code(), 0x2);
    assert_eq!(Color::Red.code(), 0x4);
    assert_eq!(Color::LightGray.code(), 0x7);
    assert_eq!(Color::LightGreen.code(), 0xA);
    assert_eq!(Color::Yellow.code(), 0xE);
    assert_eq!(Color::White.code(), 0xF);
}

#[test]
fn vga_writer_carries_its_colours() {
    let w = VgaWriter::new(Color::LightGreen, Color::Black);
    assert_eq!(w.fg, Color::LightGreen);
    assert_eq!(w.bg, Color::Black);
}

#[test]
fn new_screen_is_blank() {
    let s = Screen::new(Color::Blue);
    assert_eq!(s.buf.len(), BUF_WIDTH * BUF_HEIGHT);
    assert_eq!(s.cursor_x, 0);
    assert_eq!(s.cursor_y, 0);
    for &c in s.buf.iter() {
        assert_eq!(c, cell(b' ', Color::Black, Color::Blue));
    }
}

#[test]
fn write_char_places_the_cell_and_advances() {
    let mut s = Screen::new(Color::Black);
    s.write_char(b'A', Color::White, Color::Black);
    assert_eq!(s.buf[0], 0x0F41);
    assert_eq!(s.cursor_x, 1);
    assert_eq!(s.cursor_y, 0);
    s.write_char(b'B', Color::Green, Color::Black);
    assert_eq!(s.buf[1], cell(b'B', Color::Green, Color::Black));
    assert_eq!(s.cursor_x, 2);
}

#[test]
fn newline_moves_to_the_next_row() {
    let mut s = Screen::new(Color::Black);
    s.write_char(b'A', Color::White, Color::Black);
    s.write_char(b'\n', Color::White, Color::Black);
    assert_eq!(s.cursor_x, 0);
    assert_eq!(s.cursor_y, 1);
    s.write_char(b'B', Color::White, Color::Black);
    assert_eq!(s.buf[BUF_WIDTH], cell(b'B', Color::White, Color::Black));
}

#[test]
fn writing_past_the_right_edge_wraps() {
    let mut s = Screen::new(Color::Black);
    for _ in 0..BUF_WIDTH {
        s.write_char(b'x', Color::White, Color::Black);
    }
    assert_eq!(s.cursor_x, 0);
    assert_eq!(s.cursor_y, 1);
}

#[test]
fn scrolling_shifts_rows_up_and_blanks_the_bottom() {
    let mut s = Screen::new(Color::Black);
    // Mark the top-left corner, then force a scroll from the last row.
    s.write_char(b'T', Color::White, Color::Black);
    for _ in 0..BUF_HEIGHT - 1 {
        s.write_char(b'\n', Color::White, Color::Black);
    }
    assert_eq!(s.cursor_y, BUF_HEIGHT - 1);
    s.write_char(b'L', Color::White, Color::Black);
    s.write_char(b'\n', Color::White, Color::Black);
    // The top-left mark has scrolled off; the 'L' moved up one row.
    assert_eq!(s.cursor_y, BUF_HEIGHT - 1);
    assert_eq!(s.buf[(BUF_HEIGHT - 2) * BUF_WIDTH], cell(b'L', Color::White, Color::Black));
    for x in 0..BUF_WIDTH {
        assert_eq!(
            s.buf[(BUF_HEIGHT - 1) * BUF_WIDTH + x],
            cell(b' ', Color::Black, Color::Black)
        );
    }
}

#[test]
fn write_str_writes_each_byte() {
    let mut s = Screen::new(Color::Black);
    let text = b"Hi\nok".to_vec();
    s.write_str(&text, Color::Yellow, Color::Black);
    assert_eq!(s.buf[0], cell(b'H', Color::Yellow, Color::Black));
    assert_eq!(s.buf[1], cell(b'i', Color::Yellow, Color::Black));
    assert_eq!(s.buf[BUF_WIDTH], cell(b'o', Color::Yellow, Color::Black));
    assert_eq!(s.buf[BUF_WIDTH + 1], cell(b'k', Color::Yellow, Color::Black));
    assert_eq!(s.cursor_x, 2);
    assert_eq!(s.cursor_y, 1);
}

#[test]
fn clear_screen_blanks_everything() {
    let mut s = Screen::new(Color::Black);
    s.write_str(&b"dirty".to_vec(), Color::White, Color::Black);
    s.clear_screen(Color::Green);
    assert_eq!(s.cursor_x, 0);
    assert_eq!(s.cursor_y, 0);
    for &c in s.buf.iter() {
        assert_eq!(c, cell(b' ', Color::Black, Color::Green));
    }
}

#[test]
fn printable_keys_are_echoed() {
    assert_eq!(key_output(KeyInput::Unicode('a')), Some('a'));
    assert_eq!(key_output(KeyInput::Unicode('Z')), Some('Z'));
    assert_eq!(key_output(KeyInput::Unicode(' ')), Some(' '));
    assert_eq!(key_output(KeyInput::Unicode('é')), Some('é'));
}

#[test]
fn only_three_control_characters_pass() {
    assert_eq!(key_output(KeyInput::Unicode('\u{8}')), Some('\u{8}'));
    assert_eq!(key_output(KeyInput::Unicode('\t')), Some('\t'));
    assert_eq!(key_output(KeyInput::Unicode('\n')), Some('\n'));
    assert_eq!(key_output(KeyInput::Unicode('\u{1}')), None);
    assert_eq!(key_output(KeyInput::Unicode('\r')), None);
    assert_eq!(key_output(KeyInput::Unicode('\u{1b}')), None);
    assert_eq!(key_output(KeyInput::Unicode('\u{7f}')), None);
    assert_eq!(key_output(KeyInput::Unicode('\u{9f}')), None);
}

#[test]
fn raw_keys_map_to_control_characters() {
    assert_eq!(key_output(KeyInput::Raw(RawKey::Backspace)), Some('\u{8}'));
    assert_eq!(key_output(KeyInput::Raw(RawKey::Tab)), Some('\t'));
    assert_eq!(key_output(KeyInput::Raw(RawKey::Return)), Some('\r'));
    assert_eq!(key_output(KeyInput::Raw(RawKey::Other)), None);
}

#[test]
fn idt_starts_empty_and_installs_handlers() {
    let mut t = Idt::new();
    assert_eq!(t.entries.len(), 256);
    assert_eq!(t.entries[5].offset_low, 0);
    assert_eq!(t.entries[5].options, 0);
    t.set_handler(3, 0x1234_5678_9abc_def0);
    let e: IdtEntry = t.entries[3];
    assert_eq!(e.offset_low, 0xdef0);
    assert_eq!(e.offset_mid, 0x9abc);
    assert_eq!(e.offset_high, 0x1234_5678);
    assert_eq!(e.selector, KERNEL_CODE_SELECTOR);
    assert_eq!(e.options, INTERRUPT_GATE_OPTIONS);
    assert_eq!(e.reserved, 0);
    // The neighbours are untouched.
    assert_eq!(t.entries[2].offset_low, 0);
    assert_eq!(t.entries[4].offset_low, 0);
    // The three parts reassemble the address.
    let addr = (e.offset_low as u64) | ((e.offset_mid as u64) << 16) | ((e.offset_high as u64) << 32);
    assert_eq!(addr, 0x1234_5678_9abc_def0);
}

#[test]
fn pit_divisor_divides_the_base_frequency() {
    assert_eq!(pit_divisor(100), PIT_FREQ / 100);
    assert_eq!(pit_divisor(100), 11931);
    assert_eq!(pit_divisor(PIT_FREQ), 1);
    assert_eq!(pit_divisor(1), PIT_FREQ);
}

#[test]
fn divisor_bytes_split_low_then_high() {
    assert_eq!(divisor_bytes(11931), (0x9b, 0x2e));
    assert_eq!(divisor_bytes(0x1234), (0x34, 0x12));
    assert_eq!(divisor_bytes(0xff), (0xff, 0x00));
    // Only the low sixteen bits reach the timer.
    assert_eq!(divisor_bytes(0x12345), (0x45, 0x23));
}

#[test]
fn memset_fills_a_prefix() {
    let mut buf = vec![1u8, 2, 3, 4, 5];
    memset(&mut buf, 0x41, 3);
    assert_eq!(buf, vec![0x41, 0x41, 0x41, 4, 5]);
    // Only the low byte of the value is used.
    memset(&mut buf, 0x1ff, 1);
    assert_eq!(buf[0], 0xff);
}

#[test]
fn memcpy_copies_a_prefix() {
    let src = vec![9u8, 8, 7];
    let mut dst = vec![0u8, 0, 0, 0];
    memcpy(&mut dst, &src, 3);
    assert_eq!(dst, vec![9, 8, 7, 0]);
}

#[test]
fn memcmp_finds_the_first_difference() {
    let a = vec![1u8, 2, 3];
    let b = vec![1u8, 2, 3];
    assert_eq!(memcmp(&a, &b, 3), 0);
    let c = vec![1u8, 2, 9];
    assert_eq!(memcmp(&a, &c, 3), 3 - 9);
    assert_eq!(memcmp(&c, &a, 3), 9 - 3);
    assert_eq!(memcmp(&a, &c, 2), 0);
    assert_eq!(memcmp(&a, &b, 0), 0);
}
