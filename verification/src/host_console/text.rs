use vstd::prelude::*;
use vstd::string::*;
use crate::console::types::{Point, Size};
use crate::host_console::session::Client;

verus! {

/// The text cursor and saved cursor of a client while text is laid out,
/// and the smallest and largest cell coordinates that received a glyph so
/// far (starting from `i64::MAX` for the minima and 0 for the maxima).
#[derive(Clone, Copy, PartialEq, Eq, Structural, Debug)]
pub struct TextState {
    pub position: Point,
    pub saved: Point,
    pub min_x: i64,
    pub min_y: i64,
    pub max_x: i64,
    pub max_y: i64,
}

/// Where the text of a write request goes: the glyphs with their cells, in
/// drawing order, and the bounds of the cells drawn.
pub struct TextLayout {
    pub glyphs: Vec<(char, i64, i64)>,
    pub min_x: i64,
    pub min_y: i64,
    pub max_x: i64,
    pub max_y: i64,
}

/// One character of text: a newline moves the cursor to the start of the
/// next row; any other character is drawn at the cursor, which moves one
/// cell right and wraps to the next row at the end of a row. When the
/// cursor reaches the row below the last, it and the saved cursor move one
/// row up (the console does not scroll its contents).
pub open spec fn text_step(st: TextState, c: char, size: Size) -> TextState {
    let moved = if c == '\n' {
        TextState { position: Point { x: 0, y: (st.position.y + 1) as i64 }, ..st }
    } else {
        let x = st.position.x;
        let y = st.position.y;
        let next = Point {
            x: if x + 1 == size.width as i64 { 0 } else { (x + 1) as i64 },
            y: if x + 1 == size.width as i64 { (y + 1) as i64 } else { y },
        };
        TextState {
            position: next,
            saved: st.saved,
            min_x: if x < st.min_x { x } else { st.min_x },
            max_x: if x > st.max_x { x } else { st.max_x },
            min_y: if y < st.min_y { y } else { st.min_y },
            max_y: if y > st.max_y { y } else { st.max_y },
        }
    };
    if moved.position.y == size.height as i64 {
        TextState {
            position: Point { x: moved.position.x, y: (moved.position.y - 1) as i64 },
            saved: Point { x: moved.saved.x, y: (moved.saved.y - 1) as i64 },
            ..moved
        }
    } else {
        moved
    }
}

/// The glyph that a character puts at the cursor: none for a newline.
pub open spec fn glyph_of(st: TextState, c: char) -> Seq<(char, i64, i64)> {
    if c == '\n' { Seq::empty() } else { seq![(c, st.position.x, st.position.y)] }
}

/// The state after laying out `chars` from `start`, and the glyphs drawn.
pub open spec fn text_run(chars: Seq<char>, start: TextState, size: Size) -> (TextState, Seq<(char, i64, i64)>)
    decreases chars.len(),
{
    if chars.len() == 0 {
        (start, Seq::empty())
    } else {
        let (st, glyphs) = text_run(chars.drop_last(), start, size);
        (text_step(st, chars.last(), size), glyphs + glyph_of(st, chars.last()))
    }
}

/// Whether a cell lies in a text area of `size` cells.
pub open spec fn inside(p: Point, size: Size) -> bool {
    0 <= p.x < size.width && 0 <= p.y < size.height
}

/// One character keeps a cursor that lies in the text area inside it.
pub proof fn lemma_step_stays_inside(st: TextState, c: char, size: Size)
    requires
        inside(st.position, size),
        size.width <= i64::MAX,
        size.height <= i64::MAX,
    ensures
        inside(text_step(st, c, size).position, size),
{
}

/// Text written from a cursor in the text area leaves the cursor in the
/// text area: rows wrap at the right edge, and the row below the last is
/// never kept.
pub proof fn law_cursor_stays_inside(chars: Seq<char>, start: TextState, size: Size)
    requires
        inside(start.position, size),
        size.width <= i64::MAX,
        size.height <= i64::MAX,
    ensures
        inside(text_run(chars, start, size).0.position, size),
    decreases chars.len(),
{
    if chars.len() > 0 {
        law_cursor_stays_inside(chars.drop_last(), start, size);
        let (st, _) = text_run(chars.drop_last(), start, size);
        lemma_step_stays_inside(st, chars.last(), size);
    }
}

/// Whether one character moves the cursors up because the cursor reached
/// the row below the last.
pub open spec fn step_scrolls(st: TextState, c: char, size: Size) -> bool {
    let y = if c == '\n' || st.position.x + 1 == size.width as i64 { (st.position.y + 1) as i64 } else { st.position.y };
    y == size.height as i64
}

/// The saved cursor moves with the text: whenever a character takes the
/// cursor to the row below the last (by a newline or by wrapping at the
/// right edge) and the cursor is moved up one row to the last row, the
/// saved cursor is moved up one row too, in the same column; otherwise the
/// saved cursor stays where it is.
pub proof fn law_saved_cursor_moves_with_scrolling(st: TextState, c: char, size: Size)
    requires
        size.width <= i64::MAX,
        size.height <= i64::MAX,
        st.position.x < i64::MAX,
        st.position.y < i64::MAX,
        st.saved.y > i64::MIN,
    ensures
        ({
            let next_row = if c == '\n' || st.position.x + 1 == size.width { st.position.y + 1 } else { st.position.y as int };
            let after = text_step(st, c, size);
            &&& next_row == size.height ==> after.position.y == size.height - 1
                && after.saved == (Point { x: st.saved.x, y: (st.saved.y - 1) as i64 })
            &&& next_row != size.height ==> after.position.y == next_row && after.saved == st.saved
            &&& after.position.x == (if c == '\n' || st.position.x + 1 == size.width { 0 } else { st.position.x + 1 })
        }),
{
}

/// Whether some character of a run from `start` moves the cursors up.
pub open spec fn run_scrolls(chars: Seq<char>, start: TextState, size: Size) -> bool
    decreases chars.len(),
{
    chars.len() > 0 && (run_scrolls(chars.drop_last(), start, size)
        || step_scrolls(text_run(chars.drop_last(), start, size).0, chars.last(), size))
}

/// Text whose layout never moves the cursors up leaves the saved cursor
/// where it was.
pub proof fn law_unscrolled_text_keeps_saved(chars: Seq<char>, start: TextState, size: Size)
    requires
        !run_scrolls(chars, start, size),
    ensures
        text_run(chars, start, size).0.saved == start.saved,
    decreases chars.len(),
{
    if chars.len() > 0 {
        law_unscrolled_text_keeps_saved(chars.drop_last(), start, size);
    }
}

/// The state at the start of a write: the client's cursors, no cell drawn.
pub open spec fn start_state(client: Client) -> TextState {
    TextState { position: client.text_position, saved: client.saved_text_position, min_x: i64::MAX, min_y: i64::MAX, max_x: 0, max_y: 0 }
}

/// Cursor bounds that hold after `k` characters of a run from `start`.
pub open spec fn run_bounds(st: TextState, start: TextState, k: int) -> bool {
    &&& st.position.x <= (if start.position.x > 0 { start.position.x as int } else { 0 }) + k
    &&& start.position.y - k <= st.position.y <= start.position.y + k
    &&& st.saved.y >= start.saved.y - k
    &&& st.saved.x == start.saved.x
}

/// Lays out `text` on `client`'s console of `text_size` cells: moves its
/// cursors as `text_run` says and returns the glyphs to draw with their
/// cells and the bounds of the cells drawn.
pub fn draw_text(client: &mut Client, text_size: Size, text: &str) -> (layout: TextLayout)
    requires
        text@.len() <= i64::MAX,
        old(client).text_position.x + text@.len() <= i64::MAX,
        old(client).text_position.y + text@.len() <= i64::MAX,
        old(client).text_position.y - text@.len() > i64::MIN,
        old(client).saved_text_position.y - text@.len() > i64::MIN,
    ensures
        ({
            let (st, glyphs) = text_run(text@, start_state(*old(client)), text_size);
            &&& final(client).text_position == st.position
            &&& final(client).saved_text_position == st.saved
            &&& layout.glyphs@ == glyphs
            &&& layout.min_x == st.min_x && layout.min_y == st.min_y
            &&& layout.max_x == st.max_x && layout.max_y == st.max_y
        }),
        final(client).channel_handle == old(client).channel_handle,
        final(client).console_number == old(client).console_number,
        final(client).name@ == old(client).name@,
{
    let n = text.unicode_len();
    let ghost start = start_state(*client);
    let mut st = TextState {
        position: client.text_position,
        saved: client.saved_text_position,
        min_x: i64::MAX,
        min_y: i64::MAX,
        max_x: 0,
        max_y: 0,
    };
    let mut glyphs: Vec<(char, i64, i64)> = Vec::new();
    let mut i: usize = 0;
    while i < n
        invariant
            n == text@.len(),
            i <= n,
            n <= i64::MAX,
            start.position.x + n <= i64::MAX,
            start.position.y + n <= i64::MAX,
            start.position.y - n > i64::MIN,
            start.saved.y - n > i64::MIN,
            (st, glyphs@) == text_run(text@.subrange(0, i as int), start, text_size),
            run_bounds(st, start, i as int),
        decreases n - i,
    {
        let c = text.get_char(i);
        proof {
            assert(text@.subrange(0, i + 1).drop_last() =~= text@.subrange(0, i as int));
            assert(text@.subrange(0, i + 1).last() == c);
        }
        let x = st.position.x;
        let y = st.position.y;
        if c == '\n' {
            st.position = Point { x: 0, y: y + 1 };
        } else {
            glyphs.push((c, x, y));
            if x < st.min_x {
                st.min_x = x;
            }
            if x > st.max_x {
                st.max_x = x;
            }
            if y < st.min_y {
                st.min_y = y;
            }
            if y > st.max_y {
                st.max_y = y;
            }
            if x + 1 == text_size.width as i64 {
                st.position = Point { x: 0, y: y + 1 };
            } else {
                st.position = Point { x: x + 1, y };
            }
        }
        if st.position.y == text_size.height as i64 {
            st.saved = Point { x: st.saved.x, y: st.saved.y - 1 };
            st.position = Point { x: st.position.x, y: st.position.y - 1 };
        }
        i += 1;
    }
    proof {
        assert(text@.subrange(0, n as int) =~= text@);
    }
    client.text_position = st.position;
    client.saved_text_position = st.saved;
    TextLayout { glyphs, min_x: st.min_x, min_y: st.min_y, max_x: st.max_x, max_y: st.max_y }
}

impl Client {
    /// Remembers the text cursor.
    pub fn save_text_cursor_position(&mut self)
        ensures
            final(self).saved_text_position == old(self).text_position,
            final(self).text_position == old(self).text_position,
            final(self).channel_handle == old(self).channel_handle,
            final(self).console_number == old(self).console_number,
            final(self).name@ == old(self).name@,
    {
        self.saved_text_position = self.text_position;
    }

    /// Puts the text cursor back where it was remembered.
    pub fn load_text_cursor_position(&mut self)
        ensures
            final(self).text_position == old(self).saved_text_position,
            final(self).saved_text_position == old(self).saved_text_position,
            final(self).channel_handle == old(self).channel_handle,
            final(self).console_number == old(self).console_number,
            final(self).name@ == old(self).name@,
    {
        self.text_position = self.saved_text_position;
    }
}


/// The area in pixels of the cells that a write was laid out in: its cell
/// bounds times the glyph size, each value cut to 32 bits as the window
/// system takes it (the bounds of a write that drew nothing give the area
/// that this arithmetic gives for them).
pub fn drawn_area(layout: &TextLayout, glyph_size: Size) -> (area: (i32, i32, u32, u32))
    requires
        i64::MIN <= layout.max_x - layout.min_x < i64::MAX,
        i64::MIN <= layout.max_y - layout.min_y < i64::MAX,
        i32::MIN <= (layout.min_x as i32) * (glyph_size.width as i32) <= i32::MAX,
        i32::MIN <= (layout.min_y as i32) * (glyph_size.height as i32) <= i32::MAX,
        (((layout.max_x - layout.min_x + 1) as i64) as u32) * (glyph_size.width as u32) <= u32::MAX,
        (((layout.max_y - layout.min_y + 1) as i64) as u32) * (glyph_size.height as u32) <= u32::MAX,
    ensures
        area.0 == (layout.min_x as i32) * (glyph_size.width as i32),
        area.1 == (layout.min_y as i32) * (glyph_size.height as i32),
        area.2 == (((layout.max_x - layout.min_x + 1) as i64) as u32) * (glyph_size.width as u32),
        area.3 == (((layout.max_y - layout.min_y + 1) as i64) as u32) * (glyph_size.height as u32),
{
    let columns = layout.max_x - layout.min_x + 1;
    let rows = layout.max_y - layout.min_y + 1;
    (
        (layout.min_x as i32) * (glyph_size.width as i32),
        (layout.min_y as i32) * (glyph_size.height as i32),
        (columns as u32) * (glyph_size.width as u32),
        (rows as u32) * (glyph_size.height as u32),
    )
}

/// Whether `drawn_area` can compute the area of `layout`: no step of its
/// arithmetic leaves the range of its type.
pub fn drawn_area_fits(layout: &TextLayout, glyph_size: Size) -> (fits: bool)
    ensures
        fits == {
            &&& i64::MIN <= layout.max_x - layout.min_x < i64::MAX
            &&& i64::MIN <= layout.max_y - layout.min_y < i64::MAX
            &&& i32::MIN <= (layout.min_x as i32) * (glyph_size.width as i32) <= i32::MAX
            &&& i32::MIN <= (layout.min_y as i32) * (glyph_size.height as i32) <= i32::MAX
            &&& (((layout.max_x - layout.min_x + 1) as i64) as u32) * (glyph_size.width as u32) <= u32::MAX
            &&& (((layout.max_y - layout.min_y + 1) as i64) as u32) * (glyph_size.height as u32) <= u32::MAX
        },
{
    let dx = layout.max_x as i128 - layout.min_x as i128;
    let dy = layout.max_y as i128 - layout.min_y as i128;
    if dx < i64::MIN as i128 || dx >= i64::MAX as i128 || dy < i64::MIN as i128 || dy >= i64::MAX as i128 {
        return false;
    }
    let ax = layout.min_x as i32;
    let bx = glyph_size.width as i32;
    let ay = layout.min_y as i32;
    let by = glyph_size.height as i32;
    proof {
        assert(-0x4000_0000_0000_0000 <= ax * bx <= 0x4000_0000_0000_0000) by (nonlinear_arith)
            requires i32::MIN <= ax <= i32::MAX, i32::MIN <= bx <= i32::MAX;
        assert(-0x4000_0000_0000_0000 <= ay * by <= 0x4000_0000_0000_0000) by (nonlinear_arith)
            requires i32::MIN <= ay <= i32::MAX, i32::MIN <= by <= i32::MAX;
    }
    let x = ax as i64 * bx as i64;
    let y = ay as i64 * by as i64;
    let columns = (layout.max_x - layout.min_x + 1) as u32;
    let rows = (layout.max_y - layout.min_y + 1) as u32;
    let cw = glyph_size.width as u32;
    let ch = glyph_size.height as u32;
    proof {
        assert(columns * cw <= 0xFFFF_FFFF_FFFF_FFFF) by (nonlinear_arith)
            requires columns <= u32::MAX, cw <= u32::MAX;
        assert(rows * ch <= 0xFFFF_FFFF_FFFF_FFFF) by (nonlinear_arith)
            requires rows <= u32::MAX, ch <= u32::MAX;
    }
    let w = columns as u64 * cw as u64;
    let h = rows as u64 * ch as u64;
    i32::MIN as i64 <= x && x <= i32::MAX as i64 && i32::MIN as i64 <= y && y <= i32::MAX as i64
        && w <= u32::MAX as u64 && h <= u32::MAX as u64
}
} // verus!
