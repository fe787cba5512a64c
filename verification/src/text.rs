//! Text on a canvas: shaped glyphs, their measure and their ink.
//!
//! A font rasterizer lays a string out into glyphs and reports, for every
//! glyph, its pixel bounding box and the coverage of each pixel in it. This
//! module works on that result.
use vstd::prelude::*;
use crate::canvas::{lemma_paint_nothing, lemma_paint_plot, Canvas, Raster};
use crate::color::Color;

verus! {

/// One glyph of a laid-out text: its pixel bounding box, relative to the
/// origin of the text, and the coverage of the pixels in the box, row by
/// row, in 255ths.
#[derive(Debug)]
pub struct Glyph {
    pub left: i32,
    pub top: i32,
    pub width: u32,
    pub height: u32,
    pub coverage: Vec<u8>,
}

/// A laid-out text: the glyphs that have a bounding box, in reading order,
/// and the height of a line of the font.
#[derive(Debug)]
pub struct ShapedText {
    pub glyphs: Vec<Glyph>,
    pub line_height: u32,
}

impl Glyph {
    /// Whether the glyph inks the pixel in column `gx` of row `gy` of its
    /// box: the coverage there is more than a tenth. A pixel for which the
    /// coverage list has no entry is not inked.
    pub open spec fn covers(self, gx: int, gy: int) -> bool {
        &&& 0 <= gx < self.width
        &&& 0 <= gy < self.height
        &&& gy * self.width + gx < self.coverage@.len()
        &&& 10 * self.coverage@[gy * self.width + gx] > 255
    }

    /// The canvas positions that the glyph inks when the text's origin is
    /// at `(x, y)`.
    pub open spec fn ink(self, x: int, y: int) -> Set<(int, int)> {
        Set::new(|p: (int, int)| self.covers(p.0 - x - self.left, p.1 - y - self.top))
    }

    /// The part of [`Glyph::ink`] that lies in the first `rows` rows of the
    /// box and in the first `cols` columns of the row after them.
    pub open spec fn ink_before(self, x: int, y: int, rows: int, cols: int) -> Set<(int, int)> {
        Set::new(
            |p: (int, int)|
                {
                    let gx = p.0 - x - self.left;
                    let gy = p.1 - y - self.top;
                    self.covers(gx, gy) && (gy < rows || (gy == rows && gx < cols))
                },
        )
    }
}

/// The canvas positions that a text inks when its origin is at `(x, y)`.
pub open spec fn text_ink(glyphs: Seq<Glyph>, x: int, y: int) -> Set<(int, int)> {
    Set::new(|p: (int, int)| exists|j: int| 0 <= j < glyphs.len() && #[trigger] glyphs[j].ink(x, y).contains(p))
}

/// Width and height of a text: from the left edge of its first glyph to the
/// right edge of its last, and the line height. A text without glyphs is 0
/// wide.
pub open spec fn spec_measure(text: ShapedText) -> (int, int) {
    let g = text.glyphs@;
    if g.len() == 0 {
        (0, text.line_height as int)
    } else {
        (g.last().left + g.last().width - g.first().left, text.line_height as int)
    }
}

pub fn measure_text(text: &ShapedText) -> (size: (i64, i64))
    ensures
        (size.0 as int, size.1 as int) == spec_measure(*text),
{
    let n = text.glyphs.len();
    if n == 0 {
        (0, text.line_height as i64)
    } else {
        let first = &text.glyphs[0];
        let last = &text.glyphs[n - 1];
        (last.left as i64 + last.width as i64 - first.left as i64, text.line_height as i64)
    }
}

proof fn lemma_ink_before_step(g: Glyph, x: int, y: int, rows: int, cols: int)
    requires
        0 <= rows < g.height,
        0 <= cols < g.width,
    ensures
        g.ink_before(x, y, rows, cols + 1) == (if g.covers(cols, rows) {
            g.ink_before(x, y, rows, cols).insert((x + g.left + cols, y + g.top + rows))
        } else {
            g.ink_before(x, y, rows, cols)
        }),
{
    if g.covers(cols, rows) {
        assert(g.ink_before(x, y, rows, cols + 1) =~= g.ink_before(x, y, rows, cols).insert(
            (x + g.left + cols, y + g.top + rows),
        ));
    } else {
        assert(g.ink_before(x, y, rows, cols + 1) =~= g.ink_before(x, y, rows, cols));
    }
}

proof fn lemma_ink_before_ends(g: Glyph, x: int, y: int, rows: int)
    requires
        0 <= rows,
    ensures
        g.ink_before(x, y, 0, 0) == Set::<(int, int)>::empty(),
        g.ink_before(x, y, rows, g.width as int) == g.ink_before(x, y, rows + 1, 0),
        rows >= g.height ==> g.ink_before(x, y, rows, 0) == g.ink(x, y),
{
    assert(g.ink_before(x, y, 0, 0) =~= Set::<(int, int)>::empty());
    assert(g.ink_before(x, y, rows, g.width as int) =~= g.ink_before(x, y, rows + 1, 0));
    if rows >= g.height {
        assert(g.ink_before(x, y, rows, 0) =~= g.ink(x, y));
    }
}

proof fn lemma_text_ink_step(glyphs: Seq<Glyph>, n: int, x: int, y: int)
    requires
        0 <= n < glyphs.len(),
    ensures
        text_ink(glyphs.take(n + 1), x, y) == text_ink(glyphs.take(n), x, y).union(
            glyphs[n].ink(x, y),
        ),
{
    let a = text_ink(glyphs.take(n + 1), x, y);
    let b = text_ink(glyphs.take(n), x, y).union(glyphs[n].ink(x, y));
    assert forall|p: (int, int)| a.contains(p) implies b.contains(p) by {
        let j = choose|j: int|
            0 <= j < glyphs.take(n + 1).len() && #[trigger] glyphs.take(n + 1)[j].ink(
                x,
                y,
            ).contains(p);
        if j < n {
            assert(glyphs.take(n)[j].ink(x, y).contains(p));
        }
    }
    assert forall|p: (int, int)| b.contains(p) implies a.contains(p) by {
        if glyphs[n].ink(x, y).contains(p) {
            assert(glyphs.take(n + 1)[n].ink(x, y).contains(p));
        } else {
            let j = choose|j: int|
                0 <= j < glyphs.take(n).len() && #[trigger] glyphs.take(n)[j].ink(x, y).contains(p);
            assert(glyphs.take(n + 1)[j].ink(x, y).contains(p));
        }
    }
    assert(a =~= b);
}

proof fn lemma_text_ink_none(x: int, y: int)
    ensures
        text_ink(Seq::<Glyph>::empty(), x, y) == Set::<(int, int)>::empty(),
{
    assert(text_ink(Seq::<Glyph>::empty(), x, y) =~= Set::<(int, int)>::empty());
}

/// Stamps one glyph onto the canvas.
fn draw_glyph(canvas: &mut Canvas, color: Color, x: i64, y: i64, g: &Glyph)
    ensures
        final(canvas)@ == old(canvas)@.paint(g.ink(x as int, y as int), color),
{
    let _ = canvas.width();
    let _ = canvas.height();
    let ghost start = canvas@;
    let ghost mut done: Set<(int, int)> = Set::empty();
    proof {
        lemma_paint_nothing(start, color);
        lemma_ink_before_ends(*g, x as int, y as int, 0);
    }
    let count = g.coverage.len();
    let mut gy: u32 = 0;
    while gy < g.height
        invariant
            gy <= g.height,
            start.wf(),
            start.width <= u32::MAX,
            start.height <= u32::MAX,
            count == g.coverage@.len(),
            done == g.ink_before(x as int, y as int, gy as int, 0),
            canvas@ == start.paint(done, color),
        decreases g.height - gy,
    {
        let mut gx: u32 = 0;
        while gx < g.width
            invariant
                gx <= g.width,
                gy < g.height,
                start.wf(),
                start.width <= u32::MAX,
                start.height <= u32::MAX,
                count == g.coverage@.len(),
                done == g.ink_before(x as int, y as int, gy as int, gx as int),
                canvas@ == start.paint(done, color),
            decreases g.width - gx,
        {
            proof {
                lemma_ink_before_step(*g, x as int, y as int, gy as int, gx as int);
                assert(gy * g.width <= u32::MAX * u32::MAX) by (nonlinear_arith)
                    requires
                        gy <= u32::MAX,
                        g.width <= u32::MAX,
                ;
            }
            let at: u64 = gy as u64 * g.width as u64 + gx as u64;
            if at < count as u64 && 10 * (g.coverage[at as usize] as u32) > 255 {
                let px: i128 = x as i128 + g.left as i128 + gx as i128;
                let py: i128 = y as i128 + g.top as i128 + gy as i128;
                proof {
                    lemma_paint_plot(start, done, color, px as int, py as int);
                    done = done.insert((px as int, py as int));
                }
                if i64::MIN as i128 <= px && px <= i64::MAX as i128 && i64::MIN as i128 <= py && py
                    <= i64::MAX as i128 {
                    canvas.draw_pixel(px as i64, py as i64, color);
                }
            }
            gx += 1;
        }
        proof {
            lemma_ink_before_ends(*g, x as int, y as int, gy as int);
        }
        gy += 1;
    }
    proof {
        lemma_ink_before_ends(*g, x as int, y as int, gy as int);
    }
}

/// Draws a text in one colour with its origin at `(x, y)`: every pixel that
/// a glyph covers by more than a tenth gets the colour, whatever the
/// coverage; what falls outside the canvas is dropped.
pub fn draw_text_mut(canvas: &mut Canvas, color: Color, x: i64, y: i64, text: &ShapedText)
    ensures
        final(canvas)@ == old(canvas)@.paint(text_ink(text.glyphs@, x as int, y as int), color),
{
    let _ = canvas.width();
    let ghost start = canvas@;
    proof {
        lemma_paint_nothing(start, color);
        lemma_text_ink_none(x as int, y as int);
        assert(text.glyphs@.take(0) =~= Seq::<Glyph>::empty());
    }
    let n = text.glyphs.len();
    let mut j: usize = 0;
    while j < n
        invariant
            j <= n,
            n == text.glyphs@.len(),
            start.wf(),
            canvas@ == start.paint(text_ink(text.glyphs@.take(j as int), x as int, y as int), color),
        decreases n - j,
    {
        proof {
            lemma_text_ink_step(text.glyphs@, j as int, x as int, y as int);
            crate::canvas::lemma_paint_union(
                start,
                text_ink(text.glyphs@.take(j as int), x as int, y as int),
                text.glyphs@[j as int].ink(x as int, y as int),
                color,
            );
        }
        draw_glyph(canvas, color, x, y, &text.glyphs[j]);
        j += 1;
    }
    proof {
        assert(text.glyphs@.take(n as int) =~= text.glyphs@);
    }
}

/// `v`, or the nearest number that a position can hold.
pub open spec fn spec_position(v: int) -> int {
    if v < i64::MIN {
        i64::MIN as int
    } else if v > i64::MAX {
        i64::MAX as int
    } else {
        v
    }
}

fn position(v: i128) -> (p: i64)
    ensures
        p == spec_position(v as int),
{
    if v < i64::MIN as i128 {
        i64::MIN
    } else if v > i64::MAX as i128 {
        i64::MAX
    } else {
        v as i64
    }
}

fn floor_half(v: i64) -> (h: i64)
    ensures
        h == v / 2,
{
    if v >= 0 {
        v / 2
    } else {
        let m: i128 = -(v as i128);
        (-((m + 1) / 2)) as i64
    }
}

/// Draws a text in black, centred on `(x, y)`.
pub fn draw_text_centered(canvas: &mut Canvas, text: &ShapedText, x: i64, y: i64)
    ensures
        final(canvas)@ == old(canvas)@.paint(
            text_ink(
                text.glyphs@,
                spec_position(x - spec_measure(*text).0 / 2),
                spec_position(y - spec_measure(*text).1 / 2),
            ),
            Color::black(),
        ),
{
    let size = measure_text(text);
    let tx = position(x as i128 - floor_half(size.0) as i128);
    let ty = position(y as i128 - floor_half(size.1) as i128);
    draw_text_mut(canvas, Color::black(), tx, ty, text);
}

/// Draws a text in black with its origin, the upper left corner, at
/// `(x, y)`.
pub fn draw_text_left(canvas: &mut Canvas, text: &ShapedText, x: i64, y: i64)
    ensures
        final(canvas)@ == old(canvas)@.paint(
            text_ink(text.glyphs@, x as int, y as int),
            Color::black(),
        ),
{
    draw_text_mut(canvas, Color::black(), x, y, text);
}

/// Draws a text that ends at column `x`, its top at row `y`.
pub fn draw_text_right(canvas: &mut Canvas, text: &ShapedText, x: i64, y: i64, color: Color)
    ensures
        final(canvas)@ == old(canvas)@.paint(
            text_ink(text.glyphs@, spec_position(x - spec_measure(*text).0), y as int),
            color,
        ),
{
    let size = measure_text(text);
    let tx = position(x as i128 - size.0 as i128);
    draw_text_mut(canvas, color, tx, y, text);
}

/// Draws a text in a colour with its origin at `(x, y)`.
pub fn draw_text_left_color(canvas: &mut Canvas, text: &ShapedText, x: i64, y: i64, color: Color)
    ensures
        final(canvas)@ == old(canvas)@.paint(text_ink(text.glyphs@, x as int, y as int), color),
{
    draw_text_mut(canvas, color, x, y, text);
}

/// Draws a text that starts at column `x` and whose line ends at row `y`.
pub fn draw_text_bottom(canvas: &mut Canvas, text: &ShapedText, x: i64, y: i64, color: Color)
    ensures
        final(canvas)@ == old(canvas)@.paint(
            text_ink(text.glyphs@, x as int, spec_position(y - spec_measure(*text).1)),
            color,
        ),
{
    let size = measure_text(text);
    let ty = position(y as i128 - size.1 as i128);
    draw_text_mut(canvas, color, x, ty, text);
}

/// Draws a text that ends at column `x` and whose line ends at row `y`.
pub fn draw_text_bottom_right(canvas: &mut Canvas, text: &ShapedText, x: i64, y: i64, color: Color)
    ensures
        final(canvas)@ == old(canvas)@.paint(
            text_ink(
                text.glyphs@,
                spec_position(x - spec_measure(*text).0),
                spec_position(y - spec_measure(*text).1),
            ),
            color,
        ),
{
    let size = measure_text(text);
    let tx = position(x as i128 - size.0 as i128);
    let ty = position(y as i128 - size.1 as i128);
    draw_text_mut(canvas, color, tx, ty, text);
}

} // verus!
