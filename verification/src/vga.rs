//! The text display's state: an eighty-by-twenty-five buffer of
//! character cells and a cursor, with newline handling, line wrap and
//! scrolling.  Each cell holds the character byte in its low byte and
//! the colour attribute (background in the high nibble, foreground in
//! the low) in its high byte.  The kernel build copies this buffer to
//! the video memory; here it is owned data, so every index and every
//! cursor move can be checked.

use vstd::prelude::*;

verus! {

/// Columns of the text buffer.
pub const BUF_WIDTH: usize = 80;

/// Rows of the text buffer.
pub const BUF_HEIGHT: usize = 25;

/// The byte written on a newline.
pub const NEWLINE: u8 = 10;

/// The blank character: a space.
pub const BLANK_CHAR: u8 = 32;

/// The sixteen VGA text colours.
#[derive(Clone, Copy, PartialEq, Eq, Structural, Debug)]
pub enum Color {
    Black,
    Blue,
    Green,
    Cyan,
    Red,
    Magenta,
    Brown,
    LightGray,
    DarkGray,
    LightBlue,
    LightGreen,
    LightCyan,
    LightRed,
    Pink,
    Yellow,
    White,
}

/// The four-bit hardware code of each colour.
pub open spec fn color_code(c: Color) -> u8 {
    match c {
        Color::Black => 0,
        Color::Blue => 1,
        Color::Green => 2,
        Color::Cyan => 3,
        Color::Red => 4,
        Color::Magenta => 5,
        Color::Brown => 6,
        Color::LightGray => 7,
        Color::DarkGray => 8,
        Color::LightBlue => 9,
        Color::LightGreen => 10,
        Color::LightCyan => 11,
        Color::LightRed => 12,
        Color::Pink => 13,
        Color::Yellow => 14,
        Color::White => 15,
    }
}

impl Color {
    /// The four-bit hardware code of this colour.
    pub fn code(self) -> (r: u8)
        ensures
            r == color_code(self),
    {
        match self {
            Color::Black => 0,
            Color::Blue => 1,
            Color::Green => 2,
            Color::Cyan => 3,
            Color::Red => 4,
            Color::Magenta => 5,
            Color::Brown => 6,
            Color::LightGray => 7,
            Color::DarkGray => 8,
            Color::LightBlue => 9,
            Color::LightGreen => 10,
            Color::LightCyan => 11,
            Color::LightRed => 12,
            Color::Pink => 13,
            Color::Yellow => 14,
            Color::White => 15,
        }
    }
}

/// The cell value showing character `c` in colour `fg` on `bg`.
pub open spec fn cell_value(c: u8, fg: Color, bg: Color) -> u16 {
    ((color_code(bg) * 16 + color_code(fg)) * 0x100 + c) as u16
}

/// The cell value of an empty cell on background `bg`.
pub open spec fn blank_cell(bg: Color) -> u16 {
    cell_value(BLANK_CHAR, Color::Black, bg)
}

/// Carries the colour pair that formatted output is printed with.
pub struct VgaWriter {
    pub fg: Color,
    pub bg: Color,
}

impl VgaWriter {
    /// A writer that prints in colour `fg` on background `bg`.
    pub fn new(fg: Color, bg: Color) -> (w: VgaWriter)
        ensures
            w.fg == fg,
            w.bg == bg,
    {
        VgaWriter { fg, bg }
    }
}

/// The buffer after scrolling one line up: every row moves up one, and
/// the bottom row becomes blank.
pub open spec fn scrolled(buf: Seq<u16>, bg: Color) -> Seq<u16> {
    Seq::new(
        buf.len(),
        |i: int|
            if i < (BUF_HEIGHT - 1) * BUF_WIDTH {
                buf[i + BUF_WIDTH]
            } else {
                blank_cell(bg)
            },
    )
}

/// The display's state: the cell buffer, row-major, and the cursor.
pub struct Screen {
    /// `BUF_WIDTH * BUF_HEIGHT` cells, row-major.
    pub buf: Vec<u16>,
    /// Column of the next character, left of `BUF_WIDTH`.
    pub cursor_x: usize,
    /// Row of the next character, above `BUF_HEIGHT`.
    pub cursor_y: usize,
}

/// What one written byte does to the screen: a newline returns the
/// cursor to column zero and moves down a row (scrolling on the last
/// row); any other byte lands at the cursor, which then advances,
/// wrapping at the right edge and scrolling off the bottom.
pub open spec fn write_char_post(pre: Screen, post: Screen, c: u8, fg: Color, bg: Color) -> bool {
    if c == NEWLINE {
        &&& post.cursor_x == 0
        &&& if pre.cursor_y + 1 < BUF_HEIGHT {
            post.cursor_y == pre.cursor_y + 1 && post.buf@ == pre.buf@
        } else {
            post.cursor_y == pre.cursor_y && post.buf@ == scrolled(pre.buf@, bg)
        }
    } else {
        let written = pre.buf@.update(
            pre.cursor_y * BUF_WIDTH + pre.cursor_x,
            cell_value(c, fg, bg),
        );
        if pre.cursor_x + 1 < BUF_WIDTH {
            &&& post.cursor_x == pre.cursor_x + 1
            &&& post.cursor_y == pre.cursor_y
            &&& post.buf@ == written
        } else {
            &&& post.cursor_x == 0
            &&& if pre.cursor_y + 1 < BUF_HEIGHT {
                post.cursor_y == pre.cursor_y + 1 && post.buf@ == written
            } else {
                post.cursor_y == pre.cursor_y && post.buf@ == scrolled(written, bg)
            }
        }
    }
}

/// What a written byte string does to the screen: the effect of writing
/// its bytes one after the other.
pub open spec fn write_bytes_post(
    pre: Screen,
    post: Screen,
    s: Seq<u8>,
    fg: Color,
    bg: Color,
) -> bool
    decreases s.len(),
{
    if s.len() == 0 {
        &&& post.buf@ == pre.buf@
        &&& post.cursor_x == pre.cursor_x
        &&& post.cursor_y == pre.cursor_y
    } else {
        exists|mid: Screen|
            #[trigger] write_char_post(pre, mid, s[0], fg, bg) && write_bytes_post(
                mid,
                post,
                s.skip(1),
                fg,
                bg,
            )
    }
}

/// Writing one more byte extends the written string by one.
proof fn lemma_write_bytes_snoc(
    pre: Screen,
    mid: Screen,
    post: Screen,
    s: Seq<u8>,
    c: u8,
    fg: Color,
    bg: Color,
)
    requires
        write_bytes_post(pre, mid, s, fg, bg),
        write_char_post(mid, post, c, fg, bg),
    ensures
        write_bytes_post(pre, post, s.push(c), fg, bg),
    decreases s.len(),
{
    if s.len() == 0 {
        assert(write_char_post(pre, post, c, fg, bg));
        assert(s.push(c)[0] == c);
        assert(s.push(c).skip(1) =~= Seq::<u8>::empty());
        assert(write_bytes_post(post, post, s.push(c).skip(1), fg, bg));
    } else {
        let m0 = choose|m: Screen|
            #[trigger] write_char_post(pre, m, s[0], fg, bg) && write_bytes_post(
                m,
                mid,
                s.skip(1),
                fg,
                bg,
            );
        lemma_write_bytes_snoc(m0, mid, post, s.skip(1), c, fg, bg);
        assert(s.push(c)[0] == s[0]);
        assert(s.push(c).skip(1) =~= s.skip(1).push(c));
        assert(write_char_post(pre, m0, s.push(c)[0], fg, bg));
    }
}

impl Screen {
    /// The buffer has one cell per position and the cursor is on the
    /// screen.
    pub open spec fn wf(&self) -> bool {
        &&& self.buf@.len() == BUF_WIDTH * BUF_HEIGHT
        &&& self.cursor_x < BUF_WIDTH
        &&& self.cursor_y < BUF_HEIGHT
    }

    /// A cleared screen on background `bg`, cursor at the top left.
    pub fn new(bg: Color) -> (s: Screen)
        ensures
            s.wf(),
            s.cursor_x == 0,
            s.cursor_y == 0,
            forall|i: int| 0 <= i < s.buf@.len() ==> s.buf@[i] == blank_cell(bg),
    {
        let blank = (bg.code() as u16) * 16 * 0x100 + BLANK_CHAR as u16;
        let mut buf: Vec<u16> = Vec::new();
        let mut i: usize = 0;
        while i < BUF_WIDTH * BUF_HEIGHT
            invariant
                i <= BUF_WIDTH * BUF_HEIGHT,
                buf@.len() == i,
                blank == blank_cell(bg),
                forall|k: int| 0 <= k < i ==> buf@[k] == blank_cell(bg),
            decreases BUF_WIDTH * BUF_HEIGHT - i,
        {
            buf.push(blank);
            i = i + 1;
        }
        Screen { buf, cursor_x: 0, cursor_y: 0 }
    }

    /// Clears the screen by writing spaces with the given background
    /// colour, and returns the cursor to the top left.
    pub fn clear_screen(&mut self, bg: Color)
        requires
            old(self).wf(),
        ensures
            final(self).wf(),
            final(self).cursor_x == 0,
            final(self).cursor_y == 0,
            final(self).buf@.len() == old(self).buf@.len(),
            forall|i: int|
                0 <= i < final(self).buf@.len() ==> final(self).buf@[i] == blank_cell(bg),
    {
        let blank = (bg.code() as u16) * 16 * 0x100 + BLANK_CHAR as u16;
        let mut i: usize = 0;
        while i < BUF_WIDTH * BUF_HEIGHT
            invariant
                old(self).wf(),
                i <= BUF_WIDTH * BUF_HEIGHT,
                self.buf@.len() == BUF_WIDTH * BUF_HEIGHT,
                self.cursor_x == old(self).cursor_x,
                self.cursor_y == old(self).cursor_y,
                blank == blank_cell(bg),
                forall|k: int| 0 <= k < i ==> self.buf@[k] == blank_cell(bg),
            decreases BUF_WIDTH * BUF_HEIGHT - i,
        {
            self.buf.set(i, blank);
            i = i + 1;
        }
        self.cursor_x = 0;
        self.cursor_y = 0;
    }

    /// Scrolls the screen up by one line: every row moves up and the
    /// bottom row is blanked.  The cursor is left where it was.
    fn scroll_up(&mut self, bg: Color)
        requires
            old(self).buf@.len() == BUF_WIDTH * BUF_HEIGHT,
        ensures
            final(self).buf@ == scrolled(old(self).buf@, bg),
            final(self).cursor_x == old(self).cursor_x,
            final(self).cursor_y == old(self).cursor_y,
    {
        let blank = (bg.code() as u16) * 16 * 0x100 + BLANK_CHAR as u16;
        let mut i: usize = 0;
        while i < (BUF_HEIGHT - 1) * BUF_WIDTH
            invariant
                self.buf@.len() == BUF_WIDTH * BUF_HEIGHT,
                i <= (BUF_HEIGHT - 1) * BUF_WIDTH,
                self.cursor_x == old(self).cursor_x,
                self.cursor_y == old(self).cursor_y,
                forall|k: int| 0 <= k < i ==> self.buf@[k] == old(self).buf@[k + BUF_WIDTH],
                forall|k: int|
                    i <= k < self.buf@.len() ==> self.buf@[k] == old(self).buf@[k],
            decreases (BUF_HEIGHT - 1) * BUF_WIDTH - i,
        {
            let moved = self.buf[i + BUF_WIDTH];
            self.buf.set(i, moved);
            i = i + 1;
        }
        let mut x: usize = 0;
        while x < BUF_WIDTH
            invariant
                self.buf@.len() == BUF_WIDTH * BUF_HEIGHT,
                x <= BUF_WIDTH,
                self.cursor_x == old(self).cursor_x,
                self.cursor_y == old(self).cursor_y,
                blank == blank_cell(bg),
                forall|k: int|
                    0 <= k < (BUF_HEIGHT - 1) * BUF_WIDTH ==> self.buf@[k] == old(self).buf@[k
                        + BUF_WIDTH],
                forall|k: int|
                    (BUF_HEIGHT - 1) * BUF_WIDTH <= k < (BUF_HEIGHT - 1) * BUF_WIDTH + x
                        ==> self.buf@[k] == blank_cell(bg),
            decreases BUF_WIDTH - x,
        {
            self.buf.set((BUF_HEIGHT - 1) * BUF_WIDTH + x, blank);
            x = x + 1;
        }
        proof {
            assert(self.buf@ =~= scrolled(old(self).buf@, bg));
        }
    }

    /// Writes one byte at the cursor in colour `fg` on `bg` and advances
    /// the cursor, handling newline, line wrap and scrolling.
    pub fn write_char(&mut self, c: u8, fg: Color, bg: Color)
        requires
            old(self).wf(),
        ensures
            final(self).wf(),
            write_char_post(*old(self), *final(self), c, fg, bg),
    {
        if c == NEWLINE {
            self.cursor_x = 0;
            if self.cursor_y + 1 < BUF_HEIGHT {
                self.cursor_y = self.cursor_y + 1;
            } else {
                self.scroll_up(bg);
            }
            return ;
        }
        let cell = ((bg.code() * 16 + fg.code()) as u16) * 0x100 + c as u16;
        proof {
            assert(cell == cell_value(c, fg, bg));
        }
        let index = self.cursor_y * BUF_WIDTH + self.cursor_x;
        self.buf.set(index, cell);
        if self.cursor_x + 1 < BUF_WIDTH {
            self.cursor_x = self.cursor_x + 1;
        } else {
            self.cursor_x = 0;
            if self.cursor_y + 1 < BUF_HEIGHT {
                self.cursor_y = self.cursor_y + 1;
            } else {
                self.scroll_up(bg);
            }
        }
    }

    /// Writes a byte string starting at the cursor.
    pub fn write_str(&mut self, s: &Vec<u8>, fg: Color, bg: Color)
        requires
            old(self).wf(),
        ensures
            final(self).wf(),
            write_bytes_post(*old(self), *final(self), s@, fg, bg),
    {
        let mut i: usize = 0;
        while i < s.len()
            invariant
                self.wf(),
                i <= s@.len(),
                write_bytes_post(*old(self), *self, s@.take(i as int), fg, bg),
            decreases s@.len() - i,
        {
            let ghost mid = *self;
            self.write_char(s[i], fg, bg);
            proof {
                lemma_write_bytes_snoc(
                    *old(self),
                    mid,
                    *self,
                    s@.take(i as int),
                    s@[i as int],
                    fg,
                    bg,
                );
                assert(s@.take(i as int + 1) =~= s@.take(i as int).push(s@[i as int]));
            }
            i = i + 1;
        }
        proof {
            assert(s@.take(s@.len() as int) =~= s@);
        }
    }
}

} // verus!
