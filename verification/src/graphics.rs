//! Painting into an image held in memory: filled boxes and frames in one
//! colour. Pixels are stored row by row; the pixel at (x, y) is the one at
//! index `y * width + x`.

use vstd::prelude::*;
use crate::console::image::Image;
use crate::console::types::{Color, Point, Size};

verus! {

/// Whether index `i` lies in the run of row `y` from column `left` to
/// column `right` (both included), for rows of `width` pixels.
pub open spec fn in_row(i: int, y: int, left: int, right: int, width: int) -> bool {
    y * width + left <= i <= y * width + right
}

/// Whether the filled box from `top_left` to `bottom_right` (both included)
/// paints index `i`, for rows of `width` pixels.
pub open spec fn box_covers(i: int, top_left: Point, bottom_right: Point, width: int) -> bool {
    exists|y: int| top_left.y <= y <= bottom_right.y && #[trigger] in_row(i, y, top_left.x as int, bottom_right.x as int, width)
}

/// Whether the frame from `top_left` to `bottom_right` (both included)
/// paints index `i`: its left and right columns and its top and bottom rows.
pub open spec fn frame_covers(i: int, top_left: Point, bottom_right: Point, width: int) -> bool {
    ||| exists|y: int| top_left.y <= y <= bottom_right.y && #[trigger] in_row(i, y, top_left.x as int, top_left.x as int, width)
    ||| exists|y: int| top_left.y <= y <= bottom_right.y && #[trigger] in_row(i, y, bottom_right.x as int, bottom_right.x as int, width)
    ||| in_row(i, top_left.y as int, top_left.x as int, bottom_right.x as int, width)
    ||| in_row(i, bottom_right.y as int, top_left.x as int, bottom_right.x as int, width)
}

/// The pixels after painting with `color` every index that `covers` holds of.
pub open spec fn painted(pixels: Seq<Color>, color: Color, covers: spec_fn(int) -> bool) -> Seq<Color> {
    Seq::new(pixels.len(), |i: int| if covers(i) { color } else { pixels[i] })
}

/// The corner opposite `position` of a box of `size`.
pub open spec fn corner(position: Point, size: Size) -> Point {
    Point { x: (position.x + size.width) as i64, y: (position.y + size.height) as i64 }
}

/// Painting one set of indices and then another in one colour paints their union.
pub proof fn law_painted_twice(pixels: Seq<Color>, color: Color, a: spec_fn(int) -> bool, b: spec_fn(int) -> bool)
    ensures
        painted(painted(pixels, color, a), color, b) =~= painted(pixels, color, |i: int| a(i) || b(i)),
{
}

/// An image being painted: its size and its pixels.
pub struct ImagePainter {
    size: Size,
    pixels: Vec<Color>,
}

impl ImagePainter {
    /// The size of the image.
    pub closed spec fn size(&self) -> Size {
        self.size
    }

    /// The pixels, row by row.
    pub closed spec fn pixels(&self) -> Seq<Color> {
        self.pixels@
    }

    /// The pixels fill the image.
    pub closed spec fn wf(&self) -> bool {
        self.pixels@.len() == self.size.width * self.size.height
    }

    /// An image of `width` by `height` pixels, all of `color`.
    pub fn new(width: usize, height: usize, color: Color) -> (painter: Self)
        requires
            width * height <= usize::MAX,
        ensures
            painter.wf(),
            painter.size() == (Size { width: width as u64, height: height as u64 }),
            painter.pixels() == Seq::new((width * height) as nat, |i: int| color),
    {
        let n = width * height;
        let mut pixels: Vec<Color> = Vec::new();
        let mut i: usize = 0;
        while i < n
            invariant
                i <= n,
                pixels@ == Seq::new(i as nat, |k: int| color),
            decreases n - i,
        {
            pixels.push(color);
            i += 1;
            proof {
                assert(pixels@ =~= Seq::new(i as nat, |k: int| color));
            }
        }
        ImagePainter { size: Size { width: width as u64, height: height as u64 }, pixels }
    }

    /// The painted image.
    pub fn to_image(self) -> (image: Image)
        ensures
            image.size == self.size(),
            image.pixels@ == self.pixels(),
    {
        Image { size: self.size, pixels: self.pixels }
    }

    /// Paints the indices from `start` to `end` (both included).
    fn fill_run(&mut self, start: usize, end: usize, color: Color)
        requires
            start <= end < old(self).pixels@.len(),
        ensures
            final(self).size == old(self).size,
            final(self).pixels@ == painted(old(self).pixels@, color, |i: int| start <= i <= end),
    {
        let n = self.pixels.len();
        let mut k: usize = start;
        while k <= end
            invariant
                start <= k <= end + 1,
                n == self.pixels@.len(),
                end < n,
                self.size == old(self).size,
                self.pixels@ == painted(old(self).pixels@, color, |i: int| start <= i < k),
            decreases end + 1 - k,
        {
            self.pixels.set(k, color);
            proof {
                assert(self.pixels@ =~= painted(old(self).pixels@, color, |i: int| start <= i < k + 1));
            }
            k += 1;
        }
        proof {
            assert(self.pixels@ =~= painted(old(self).pixels@, color, |i: int| start <= i <= end));
        }
    }

    /// Fills the box from `top_left` to `bottom_right`, both included.
    pub fn draw_filled_box_xy(&mut self, top_left: Point, bottom_right: Point, color: Color)
        requires
            old(self).wf(),
            0 <= top_left.x <= bottom_right.x,
            0 <= top_left.y <= bottom_right.y,
            bottom_right.y * old(self).size().width + bottom_right.x < old(self).pixels().len(),
        ensures
            final(self).wf(),
            final(self).size() == old(self).size(),
            final(self).pixels() == painted(old(self).pixels(), color,
                |i: int| box_covers(i, top_left, bottom_right, old(self).size().width as int)),
    {
        let ghost w = self.size.width as int;
        let n = self.pixels.len();
        proof {
            let h = self.size.height as int;
            assert(self.pixels@.len() == w * h);
            assert(bottom_right.y * w >= 0) by (nonlinear_arith) requires bottom_right.y >= 0, w >= 0;
            if h == 0 {
                assert(w * h == 0) by (nonlinear_arith) requires h == 0;
            }
            assert(w <= w * h) by (nonlinear_arith) requires h >= 1, w >= 0;
            assert(top_left.y * w <= bottom_right.y * w) by (nonlinear_arith) requires top_left.y <= bottom_right.y, w >= 0;
            assert(w <= n);
        }
        let width = self.size.width as usize;
        let left = top_left.x as usize;
        let right = bottom_right.x as usize;
        let mut y: i64 = top_left.y;
        let first_row = top_left.y as usize;
        proof {
            if w >= 1 {
                assert(top_left.y <= top_left.y * w) by (nonlinear_arith) requires w >= 1, top_left.y >= 0;
                assert(first_row == top_left.y);
            }
            assert(first_row * w == top_left.y * w) by (nonlinear_arith)
                requires w == 0 || first_row == top_left.y;
        }
        let mut row_start: usize = first_row * width;
        loop
            invariant_except_break
                self.pixels@ == painted(old(self).pixels@, color,
                    |i: int| exists|r: int| top_left.y <= r < y && #[trigger] in_row(i, r, left as int, right as int, w)),
            invariant
                width == w,
                w == old(self).size.width,
                self.size == old(self).size,
                self.pixels@.len() == old(self).pixels@.len(),
                n == old(self).pixels@.len(),
                0 <= top_left.x <= bottom_right.x,
                0 <= top_left.y <= y <= bottom_right.y,
                left == top_left.x,
                right == bottom_right.x,
                row_start == y * w,
                bottom_right.y * w + bottom_right.x < old(self).pixels@.len(),
            ensures
                self.size == old(self).size,
                self.pixels@ == painted(old(self).pixels@, color,
                    |i: int| exists|r: int| top_left.y <= r <= bottom_right.y && #[trigger] in_row(i, r, left as int, right as int, w)),
            decreases bottom_right.y - y,
        {
            proof {
                assert(y * w <= bottom_right.y * w) by (nonlinear_arith) requires y <= bottom_right.y, w >= 0;
            }
            self.fill_run(row_start + left, row_start + right, color);
            proof {
                assert(self.pixels@ =~= painted(old(self).pixels@, color,
                    |i: int| exists|r: int| top_left.y <= r < y + 1 && #[trigger] in_row(i, r, left as int, right as int, w))) by {
                    assert forall|i: int| 0 <= i < self.pixels@.len() implies self.pixels@[i] == (if (exists|r: int| top_left.y <= r < y + 1 && #[trigger] in_row(i, r, left as int, right as int, w)) { color } else { old(self).pixels@[i] }) by {
                        if in_row(i, y as int, left as int, right as int, w) {
                        } else if exists|r: int| top_left.y <= r < y && #[trigger] in_row(i, r, left as int, right as int, w) {
                        } else {
                            assert forall|r: int| top_left.y <= r < y + 1 implies !#[trigger] in_row(i, r, left as int, right as int, w) by {
                                if r < y {
                                } else {
                                    assert(r == y);
                                }
                            }
                        }
                    }
                }
                assert((y + 1) * w == y * w + w) by (nonlinear_arith);
            }
            if y == bottom_right.y {
                proof {
                    assert(self.pixels@ =~= painted(old(self).pixels@, color,
                        |i: int| exists|r: int| top_left.y <= r <= bottom_right.y && #[trigger] in_row(i, r, left as int, right as int, w)));
                }
                break;
            }
            proof {
                assert((y + 1) * w <= bottom_right.y * w) by (nonlinear_arith) requires y + 1 <= bottom_right.y, w >= 0;
            }
            y += 1;
            row_start = row_start + width;
        }
        proof {
            assert(self.pixels@ =~= painted(old(self).pixels@, color,
                |i: int| box_covers(i, top_left, bottom_right, w)));
        }
    }

    /// Fills the box at `position` reaching `size` further right and down,
    /// both edges included.
    pub fn draw_filled_box_sized(&mut self, position: Point, size: Size, color: Color)
        requires
            old(self).wf(),
            0 <= position.x,
            0 <= position.y,
            position.x + size.width <= i64::MAX,
            position.y + size.height <= i64::MAX,
            (position.y + size.height) * old(self).size().width + position.x + size.width
                < old(self).pixels().len(),
        ensures
            final(self).wf(),
            final(self).size() == old(self).size(),
            final(self).pixels() == painted(old(self).pixels(), color,
                |i: int| box_covers(i, position, corner(position, size), old(self).size().width as int)),
    {
        let bottom_right = Point { x: position.x + size.width as i64, y: position.y + size.height as i64 };
        self.draw_filled_box_xy(position, bottom_right, color);
    }

    /// Draws the frame from `top_left` to `bottom_right`, both included: its
    /// left and right columns and its top and bottom rows.
    pub fn draw_frame_xy(&mut self, top_left: Point, bottom_right: Point, color: Color)
        requires
            old(self).wf(),
            0 <= top_left.x <= bottom_right.x,
            0 <= top_left.y <= bottom_right.y,
            bottom_right.y * old(self).size().width + bottom_right.x < old(self).pixels().len(),
        ensures
            final(self).wf(),
            final(self).size() == old(self).size(),
            final(self).pixels() == painted(old(self).pixels(), color,
                |i: int| frame_covers(i, top_left, bottom_right, old(self).size().width as int)),
    {
        let ghost w = self.size.width as int;
        let ghost p0 = self.pixels@;
        proof {
            assert(top_left.y * w <= bottom_right.y * w) by (nonlinear_arith)
                requires top_left.y <= bottom_right.y, w >= 0;
        }
        let left_top = Point { x: top_left.x, y: top_left.y };
        let left_bottom = Point { x: top_left.x, y: bottom_right.y };
        let right_top = Point { x: bottom_right.x, y: top_left.y };
        self.draw_filled_box_xy(left_top, left_bottom, color);
        let ghost p1 = self.pixels@;
        self.draw_filled_box_xy(right_top, bottom_right, color);
        let ghost p2 = self.pixels@;
        self.draw_filled_box_xy(left_top, right_top, color);
        let ghost p3 = self.pixels@;
        self.draw_filled_box_xy(left_bottom, bottom_right, color);
        proof {
            let a = |i: int| box_covers(i, left_top, left_bottom, w);
            let b = |i: int| box_covers(i, right_top, bottom_right, w);
            let c = |i: int| box_covers(i, left_top, right_top, w);
            let d = |i: int| box_covers(i, left_bottom, bottom_right, w);
            law_painted_twice(p0, color, a, b);
            law_painted_twice(p0, color, |i: int| a(i) || b(i), c);
            law_painted_twice(p0, color, |i: int| (a(i) || b(i)) || c(i), d);
            assert forall|i: int| #![trigger frame_covers(i, top_left, bottom_right, w)]
                0 <= i < p0.len() implies
                (((a(i) || b(i)) || c(i)) || d(i)) == frame_covers(i, top_left, bottom_right, w) by {
                assert(a(i) == box_covers(i, left_top, left_bottom, w));
                assert(b(i) == box_covers(i, right_top, bottom_right, w));
                assert(c(i) == box_covers(i, left_top, right_top, w));
                assert(d(i) == box_covers(i, left_bottom, bottom_right, w));
                if in_row(i, top_left.y as int, top_left.x as int, bottom_right.x as int, w) {
                    assert(in_row(i, left_top.y as int, left_top.x as int, right_top.x as int, w));
                    assert(c(i));
                }
                if in_row(i, bottom_right.y as int, top_left.x as int, bottom_right.x as int, w) {
                    assert(in_row(i, left_bottom.y as int, left_bottom.x as int, bottom_right.x as int, w));
                    assert(d(i));
                }
                if c(i) {
                    let r = choose|r: int| top_left.y <= r <= top_left.y
                        && #[trigger] in_row(i, r, top_left.x as int, bottom_right.x as int, w);
                    assert(r == top_left.y);
                }
                if d(i) {
                    let r = choose|r: int| bottom_right.y <= r <= bottom_right.y
                        && #[trigger] in_row(i, r, top_left.x as int, bottom_right.x as int, w);
                    assert(r == bottom_right.y);
                }
            }
            assert(self.pixels@ =~= painted(p0, color,
                |i: int| frame_covers(i, top_left, bottom_right, w)));
        }
    }

    /// Draws the frame at `position` reaching `size` further right and down,
    /// both edges included.
    pub fn draw_frame_sized(&mut self, position: Point, size: Size, color: Color)
        requires
            old(self).wf(),
            0 <= position.x,
            0 <= position.y,
            position.x + size.width <= i64::MAX,
            position.y + size.height <= i64::MAX,
            (position.y + size.height) * old(self).size().width + position.x + size.width
                < old(self).pixels().len(),
        ensures
            final(self).wf(),
            final(self).size() == old(self).size(),
            final(self).pixels() == painted(old(self).pixels(), color,
                |i: int| frame_covers(i, position, corner(position, size), old(self).size().width as int)),
    {
        let bottom_right = Point { x: position.x + size.width as i64, y: position.y + size.height as i64 };
        self.draw_frame_xy(position, bottom_right, color);
    }
}

} // verus!
