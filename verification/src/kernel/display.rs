//! Text on a framebuffer.
//!
//! The writer keeps the picture as rows of pixels. Copying it to the screen is done
//! elsewhere.

use noto_sans_mono_bitmap::{get_raster, FontWeight, RasterHeight};
use vstd::prelude::*;

use crate::text::chars_of;
use crate::views::{group_views, views};

verus! {

/// Width of a character in pixels.
pub const CHAR_WIDTH: usize = 7;

/// Height of a character in pixels.
pub const CHAR_HEIGHT: usize = 16;

/// Near-white.
pub const FG_COLOR: u32 = 0x00E8E8E8;

/// Dark blue-black.
pub const BG_COLOR: u32 = 0x00101018;

/// The picture of a character in the font: rows of intensities. None for a character
/// that the font lacks.
pub uninterp spec fn font_glyph(c: char) -> Option<Seq<Seq<u8>>>;

/// `noto_sans_mono_bitmap::get_raster`, regular weight, height 16: the rows of the
/// character's raster. The result depends on the character alone, and the font has the
/// question mark.
#[verifier::external_body]
fn glyph(c: char) -> (r: Option<Vec<Vec<u8>>>)
    ensures
        r is Some <==> font_glyph(c) is Some,
        r is Some ==> font_glyph(c) == Some(views((r->0)@)),
        c == '?' ==> r is Some,
{
    let raster = get_raster(c, FontWeight::Regular, RasterHeight::Size16)?;
    Some(raster.raster().iter().map(|row| row.to_vec()).collect())
}

/// The picture that is drawn for a character: its own, else that of the question mark.
pub open spec fn drawn_glyph(c: char) -> Option<Seq<Seq<u8>>> {
    match font_glyph(c) {
        Some(g) => Some(g),
        None => font_glyph('?'),
    }
}

/// One channel of a mixed color.
pub open spec fn mix(fg: int, bg: int, alpha: int) -> int {
    (fg * alpha + bg * (255 - alpha)) / 255
}

/// A color between background and foreground.
pub open spec fn blended(bg: u32, fg: u32, alpha: u8) -> int {
    if alpha == 0 {
        bg as int
    } else if alpha == 255 {
        fg as int
    } else {
        mix(fg as int / 0x1_0000 % 0x100, bg as int / 0x1_0000 % 0x100, alpha as int) * 0x1_0000 + mix(
            fg as int / 0x100 % 0x100,
            bg as int / 0x100 % 0x100,
            alpha as int,
        ) * 0x100 + mix(fg as int % 0x100, bg as int % 0x100, alpha as int)
    }
}

/// One channel of a mixed color.
fn mix_channel(fg: u32, bg: u32, a: u32) -> (r: u32)
    requires
        fg < 0x100,
        bg < 0x100,
        a < 0x100,
    ensures
        r == mix(fg as int, bg as int, a as int),
        r < 0x100,
{
    assert(fg * a + bg * (255 - a) <= 255 * 255 && fg * a <= 255 * 255 && bg * (255 - a) <= 255 * 255 && fg * a >= 0 && bg
        * (255 - a) >= 0) by (nonlinear_arith)
        requires
            fg < 0x100,
            bg < 0x100,
            a < 0x100,
    ;
    (fg * a + bg * (255 - a)) / 255
}

/// A color between background and foreground.
pub fn blend_color(bg: u32, fg: u32, alpha: u8) -> (r: u32)
    ensures
        r == blended(bg, fg, alpha),
{
    if alpha == 0 {
        return bg;
    }
    if alpha == 255 {
        return fg;
    }
    let a = alpha as u32;
    let r = mix_channel(fg / 0x1_0000 % 0x100, bg / 0x1_0000 % 0x100, a);
    let g = mix_channel(fg / 0x100 % 0x100, bg / 0x100 % 0x100, a);
    let b = mix_channel(fg % 0x100, bg % 0x100, a);
    r * 0x1_0000 + g * 0x100 + b
}

/// Writes text into a picture.
pub struct FramebufferWriter {
    rows: Vec<Vec<u32>>,
    width: usize,
    height: usize,
    cursor_x: usize,
    cursor_y: usize,
}

/// What the writer holds: the rows of the picture, and the cursor in characters.
#[verifier::ext_equal]
pub struct ScreenView {
    pub rows: Seq<Seq<u32>>,
    pub width: int,
    pub height: int,
    pub cursor_x: int,
    pub cursor_y: int,
}

impl View for FramebufferWriter {
    type V = ScreenView;

    closed spec fn view(&self) -> ScreenView {
        ScreenView {
            rows: views(self.rows@),
            width: self.width as int,
            height: self.height as int,
            cursor_x: self.cursor_x as int,
            cursor_y: self.cursor_y as int,
        }
    }
}

/// A row of background.
pub open spec fn blank_row(width: int) -> Seq<u32> {
    Seq::new(width as nat, |x: int| BG_COLOR)
}

/// `n` rows of background.
pub open spec fn blank_rows(n: int, width: int) -> Seq<Seq<u32>> {
    Seq::new(n as nat, |y: int| blank_row(width))
}

/// The picture with a glyph drawn over it: only pixels of the glyph change, and only
/// those on the screen.
pub open spec fn drawn(rows: Seq<Seq<u32>>, g: Seq<Seq<u8>>, left: int, top: int) -> Seq<Seq<u32>> {
    Seq::new(
        rows.len(),
        |y: int|
            if top <= y < top + g.len() {
                drawn_row(rows[y], g[y - top], left)
            } else {
                rows[y]
            },
    )
}

/// A row of the picture with a row of a glyph drawn over it.
pub open spec fn drawn_row(row: Seq<u32>, g: Seq<u8>, left: int) -> Seq<u32> {
    Seq::new(
        row.len(),
        |x: int|
            if left <= x < left + g.len() {
                blended(BG_COLOR, FG_COLOR, g[x - left]) as u32
            } else {
                row[x]
            },
    )
}

impl ScreenView {
    /// The picture has its size, and the cursor is on it.
    pub open spec fn wf(self) -> bool {
        &&& self.height >= CHAR_HEIGHT
        &&& self.rows.len() == self.height
        &&& forall|y: int| 0 <= y < self.rows.len() ==> (#[trigger] self.rows[y]).len() == self.width
        &&& 0 <= self.cursor_y < self.height / (CHAR_HEIGHT as int)
        &&& 0 <= self.cursor_x
        &&& self.cursor_x == 0 || self.cursor_x < self.width / (CHAR_WIDTH as int)
    }

    /// The screen one line of text further up, with a blank line at the bottom.
    pub open spec fn scrolled(self) -> ScreenView {
        ScreenView {
            rows: self.rows.skip(CHAR_HEIGHT as int) + blank_rows(CHAR_HEIGHT as int, self.width),
            cursor_y: self.cursor_y - 1,
            ..self
        }
    }

    /// The screen with the cursor at the start of the next line.
    pub open spec fn next_line(self) -> ScreenView {
        let moved = ScreenView { cursor_x: 0, cursor_y: self.cursor_y + 1, ..self };
        if moved.cursor_y >= self.height / (CHAR_HEIGHT as int) {
            moved.scrolled()
        } else {
            moved
        }
    }

    /// The screen after a picture was drawn at the cursor, which moves on.
    pub open spec fn stamped(self, g: Seq<Seq<u8>>) -> ScreenView {
        let inked = ScreenView {
            rows: drawn(self.rows, g, self.cursor_x * CHAR_WIDTH, self.cursor_y * CHAR_HEIGHT),
            cursor_x: self.cursor_x + 1,
            ..self
        };
        if inked.cursor_x >= self.width / (CHAR_WIDTH as int) {
            inked.next_line()
        } else {
            inked
        }
    }

    /// The screen after a character was written.
    pub open spec fn typed(self, c: char) -> ScreenView {
        if c == '\n' {
            self.next_line()
        } else {
            match drawn_glyph(c) {
                Some(g) => self.stamped(g),
                None => self,
            }
        }
    }

    /// The screen after several characters were written.
    pub open spec fn typed_all(self, s: Seq<char>) -> ScreenView
        decreases s.len(),
    {
        if s.len() == 0 {
            self
        } else {
            self.typed_all(s.drop_last()).typed(s.last())
        }
    }
}

/// A text may be written in pieces.
pub proof fn law_text_in_pieces(screen: ScreenView, a: Seq<char>, b: Seq<char>)
    ensures
        screen.typed_all(a + b) == screen.typed_all(a).typed_all(b),
    decreases b.len(),
{
    if b.len() == 0 {
        assert(a + b =~= a);
    } else {
        assert((a + b).drop_last() =~= a + b.drop_last());
        law_text_in_pieces(screen, a, b.drop_last());
    }
}

/// A row of background.
fn make_blank(width: usize) -> (r: Vec<u32>)
    ensures
        r@ == blank_row(width as int),
{
    let mut v: Vec<u32> = Vec::new();
    let mut x: usize = 0;
    while x < width
        invariant
            x <= width,
            v@ == blank_row(x as int),
        decreases width - x,
    {
        v.push(BG_COLOR);
        x += 1;
        assert(v@ =~= blank_row(x as int));
    }
    v
}

impl FramebufferWriter {
    /// An empty screen.
    pub fn new(width: usize, height: usize) -> (r: Self)
        requires
            height >= CHAR_HEIGHT,
        ensures
            r@ == (ScreenView {
                rows: blank_rows(height as int, width as int),
                width: width as int,
                height: height as int,
                cursor_x: 0,
                cursor_y: 0,
            }),
            r@.wf(),
    {
        broadcast use group_views;

        let mut rows: Vec<Vec<u32>> = Vec::new();
        let mut y: usize = 0;
        assert(views(rows@) =~= blank_rows(0, width as int));
        while y < height
            invariant
                y <= height,
                views(rows@) == blank_rows(y as int, width as int),
            decreases height - y,
        {
            broadcast use group_views;

            rows.push(make_blank(width));
            y += 1;
            assert(blank_rows(y as int, width as int) =~= blank_rows(y - 1, width as int).push(
                blank_row(width as int),
            ));
        }
        FramebufferWriter { rows, width, height, cursor_x: 0, cursor_y: 0 }
    }

    /// The rows of the picture.
    pub fn rows(&self) -> (r: &Vec<Vec<u32>>)
        ensures
            views(r@) == self@.rows,
    {
        &self.rows
    }

    /// Set a pixel, where it is on the screen.
    pub fn put_pixel(&mut self, x: usize, y: usize, color: u32)
        requires
            old(self)@.wf(),
        ensures
            final(self)@.wf(),
            final(self)@ == (if x < old(self)@.width && y < old(self)@.height {
                ScreenView {
                    rows: old(self)@.rows.update(y as int, old(self)@.rows[y as int].update(x as int, color)),
                    ..old(self)@
                }
            } else {
                old(self)@
            }),
    {
        broadcast use group_views;

        if x < self.width && y < self.height {
            let ghost before = self.rows@;
            assert(self@.rows[y as int].len() == self.width);
            self.rows[y][x] = color;
            assert(views(self.rows@) =~= views(before).update(
                y as int,
                views(before)[y as int].update(x as int, color),
            ));
            assert forall|k: int| 0 <= k < self@.rows.len() implies (#[trigger] self@.rows[k]).len() == self@.width by {
                assert(old(self)@.rows[k].len() == self@.width);
            }
        }
    }

    /// Fill the screen with background.
    pub fn clear(&mut self)
        requires
            old(self)@.wf(),
        ensures
            final(self)@.wf(),
            final(self)@ == (ScreenView { rows: blank_rows(old(self)@.height, old(self)@.width), ..old(self)@ }),
    {
        broadcast use group_views;

        let mut y: usize = 0;
        while y < self.height
            invariant
                y <= self.height,
                self.height == old(self).height,
                self.width == old(self).width,
                self.cursor_x == old(self).cursor_x,
                self.cursor_y == old(self).cursor_y,
                self.rows@.len() == self.height,
                forall|k: int| 0 <= k < y ==> (#[trigger] self.rows@[k])@ == blank_row(self.width as int),
            decreases self.height - y,
        {
            self.rows[y] = make_blank(self.width);
            y += 1;
        }
        assert(views(self.rows@) =~= blank_rows(self.height as int, self.width as int));
    }

    /// Move the screen one line of text up.
    fn scroll_up(&mut self)
        requires
            old(self)@.rows.len() == old(self)@.height,
            old(self)@.height >= CHAR_HEIGHT,
            old(self)@.cursor_y >= 1,
        ensures
            final(self)@ == old(self)@.scrolled(),
    {
        broadcast use group_views;

        let ghost before = self.rows@;
        let mut kept = self.rows.split_off(CHAR_HEIGHT);
        let mut y: usize = 0;
        assert(views(kept@) =~= views(before).skip(CHAR_HEIGHT as int) + blank_rows(0, self.width as int));
        while y < CHAR_HEIGHT
            invariant
                y <= CHAR_HEIGHT,
                views(kept@) == views(before).skip(CHAR_HEIGHT as int) + blank_rows(y as int, self.width as int),
            decreases CHAR_HEIGHT - y,
        {
            broadcast use group_views;

            kept.push(make_blank(self.width));
            y += 1;
            assert(blank_rows(y as int, self.width as int) =~= blank_rows(y - 1, self.width as int).push(
                blank_row(self.width as int),
            ));
            assert(views(kept@) =~= views(before).skip(CHAR_HEIGHT as int) + blank_rows(y as int, self.width as int));
        }
        self.rows = kept;
        self.cursor_y -= 1;
    }

    /// Move the cursor to the start of the next line.
    fn new_line(&mut self)
        requires
            old(self)@.rows.len() == old(self)@.height,
            old(self)@.height >= CHAR_HEIGHT,
            0 <= old(self)@.cursor_y < old(self)@.height / (CHAR_HEIGHT as int),
            forall|y: int| 0 <= y < old(self)@.rows.len() ==> (#[trigger] old(self)@.rows[y]).len() == old(self)@.width,
        ensures
            final(self)@ == old(self)@.next_line(),
            final(self)@.wf(),
    {
        self.cursor_x = 0;
        self.cursor_y += 1;
        if self.cursor_y >= self.height / CHAR_HEIGHT {
            let ghost before = self@;
            self.scroll_up();
            assert forall|y: int| 0 <= y < self@.rows.len() implies (#[trigger] self@.rows[y]).len() == self@.width by {
                if y < before.rows.len() - CHAR_HEIGHT {
                    assert(self@.rows[y] == before.rows[y + CHAR_HEIGHT]);
                }
            }
        }
    }

    /// Write one character.
    pub fn write_char(&mut self, c: char)
        requires
            old(self)@.wf(),
        ensures
            final(self)@ == old(self)@.typed(c),
            final(self)@.wf(),
    {
        if c == '\n' {
            self.new_line();
            return;
        }
        let picture = match glyph(c) {
            Some(g) => g,
            None => match glyph('?') {
                Some(g) => g,
                None => {
                    return;
                },
            },
        };
        self.draw(&picture);
    }

    /// Draw a picture at the cursor, and move the cursor on.
    pub fn draw(&mut self, picture: &Vec<Vec<u8>>)
        requires
            old(self)@.wf(),
        ensures
            final(self)@ == old(self)@.stamped(views(picture@)),
            final(self)@.wf(),
    {
        broadcast use group_views;

        let ghost g = views(picture@);
        let ghost start = self@;
        let left = self.cursor_x * CHAR_WIDTH;
        let top = self.cursor_y * CHAR_HEIGHT;
        let mut r: usize = 0;
        assert(drawn(start.rows, g.take(0), left as int, top as int) =~= start.rows);
        while r < picture.len() && r < self.height - top
            invariant
                g == views(picture@),
                start.wf(),
                top < start.height,
                top + CHAR_HEIGHT <= start.height,
                r <= picture@.len(),
                r <= start.height - top,
                self.width == start.width,
                self.height == start.height,
                self.cursor_x == start.cursor_x,
                self.cursor_y == start.cursor_y,
                self@.rows == drawn(start.rows, g.take(r as int), left as int, top as int),
            decreases picture@.len() - r,
        {
            broadcast use group_views;

            let y = top + r;
            let ghost rows = self@.rows;
            assert(start.rows[y as int].len() == self.width);
            assert(rows.len() == start.rows.len());
            assert(self.rows@.len() == rows.len());
            assert(rows[y as int] == start.rows[y as int]);
            let row = Self::ink_row(&self.rows[y], &picture[r], left);
            self.rows[y] = row;
            r += 1;
            assert(self@.rows =~= drawn(start.rows, g.take(r as int), left as int, top as int)) by {
                let want = drawn(start.rows, g.take(r as int), left as int, top as int);
                assert forall|k: int| 0 <= k < want.len() implies #[trigger] self@.rows[k] == want[k] by {
                    if k != y {
                        assert(self@.rows[k] == rows[k]);
                    }
                }
            }
        }
        proof {
            assert(self@.rows =~= drawn(start.rows, g, left as int, top as int)) by {
                let want = drawn(start.rows, g, left as int, top as int);
                assert forall|k: int| 0 <= k < want.len() implies #[trigger] self@.rows[k] == want[k] by {}
            }
            assert forall|k: int| 0 <= k < self@.rows.len() implies (#[trigger] self@.rows[k]).len() == self@.width by {
                assert(start.rows[k].len() == start.width);
            }
        }
        self.cursor_x += 1;
        if self.cursor_x >= self.width / CHAR_WIDTH {
            self.new_line();
        }
    }

    /// A row of the picture with a row of a glyph drawn over it.
    fn ink_row(row: &Vec<u32>, g: &Vec<u8>, left: usize) -> (r: Vec<u32>)
        ensures
            r@ == drawn_row(row@, g@, left as int),
    {
        let mut out: Vec<u32> = Vec::new();
        let mut x: usize = 0;
        while x < row.len()
            invariant
                x <= row@.len(),
                out@ == drawn_row(row@, g@, left as int).take(x as int),
            decreases row@.len() - x,
        {
            if x >= left && x - left < g.len() {
                out.push(blend_color(BG_COLOR, FG_COLOR, g[x - left]));
            } else {
                out.push(row[x]);
            }
            x += 1;
            assert(out@ =~= drawn_row(row@, g@, left as int).take(x as int));
        }
        assert(drawn_row(row@, g@, left as int).take(row@.len() as int) =~= drawn_row(row@, g@, left as int));
        out
    }

    /// Write a text.
    pub fn write_str(&mut self, s: &str)
        requires
            old(self)@.wf(),
        ensures
            final(self)@ == old(self)@.typed_all(s@),
            final(self)@.wf(),
    {
        let cs = chars_of(s);
        let mut i: usize = 0;
        assert(s@.take(0) =~= Seq::empty());
        while i < cs.len()
            invariant
                cs@ == s@,
                i <= cs@.len(),
                self@ == old(self)@.typed_all(s@.take(i as int)),
                self@.wf(),
            decreases cs@.len() - i,
        {
            self.write_char(cs[i]);
            i += 1;
            assert(s@.take(i as int).drop_last() =~= s@.take(i - 1));
        }
        assert(s@.take(s@.len() as int) =~= s@);
    }
}

} // verus!
