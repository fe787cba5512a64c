//! The full-colour raster that one render pass draws on.
use vstd::prelude::*;
use crate::color::{classify, spec_quantized, Color};

verus! {

/// An 8-bit RGB image buffer of the `image` crate. Contracts speak of what
/// it holds through [`buffer_pixels`] and [`buffer_size`].
#[verifier::external_body]
pub struct PixelBuffer {
    img: image::RgbImage,
}

/// The pixels of an image buffer, row by row from the top, each row from the
/// left: the first `width * height` pixels of its container.
pub uninterp spec fn buffer_pixels(img: PixelBuffer) -> Seq<Color>;

/// Width and height of an image buffer, in this order.
pub uninterp spec fn buffer_size(img: PixelBuffer) -> (nat, nat);

/// `ImageBuffer::from_pixel`: a buffer of the given size in which every pixel
/// is `fill`. The call panics when the byte count overflows, which the
/// precondition excludes.
#[verifier::external_body]
fn buffer_filled(width: u32, height: u32, fill: Color) -> (img: PixelBuffer)
    requires
        3 * width * height <= isize::MAX,
    ensures
        buffer_size(img) == (width as nat, height as nat),
        buffer_pixels(img) == Seq::new((width * height) as nat, |i: int| fill),
{
    PixelBuffer { img: image::RgbImage::from_pixel(width, height, image::Rgb([fill.r, fill.g, fill.b])) }
}

/// `ImageBuffer::width`. The buffer holds one pixel for each column of each
/// row.
#[verifier::external_body]
fn buffer_width(img: &PixelBuffer) -> (w: u32)
    ensures
        w == buffer_size(*img).0,
        buffer_pixels(*img).len() == w * buffer_size(*img).1,
{
    img.img.width()
}

/// `ImageBuffer::height`.
#[verifier::external_body]
fn buffer_height(img: &PixelBuffer) -> (h: u32)
    ensures
        h == buffer_size(*img).1,
{
    img.img.height()
}

/// `ImageBuffer::get_pixel`: the pixel in column `x` of row `y`. The call
/// panics outside the image, which the precondition excludes.
#[verifier::external_body]
fn buffer_get(img: &PixelBuffer, x: u32, y: u32) -> (p: Color)
    requires
        x < buffer_size(*img).0,
        y < buffer_size(*img).1,
    ensures
        p == buffer_pixels(*img)[y * buffer_size(*img).0 + x],
{
    let p = img.img.get_pixel(x, y);
    Color { r: p.0[0], g: p.0[1], b: p.0[2] }
}

/// `ImageBuffer::put_pixel`: replaces the pixel in column `x` of row `y` and
/// leaves every other pixel and the size as they were. The call panics
/// outside the image, which the precondition excludes.
#[verifier::external_body]
fn buffer_put(img: &mut PixelBuffer, x: u32, y: u32, p: Color)
    requires
        x < buffer_size(*old(img)).0,
        y < buffer_size(*old(img)).1,
    ensures
        buffer_size(*final(img)) == buffer_size(*old(img)),
        buffer_pixels(*final(img)) == buffer_pixels(*old(img)).update(
            y * buffer_size(*old(img)).0 + x,
            p,
        ),
{
    img.img.put_pixel(x, y, image::Rgb([p.r, p.g, p.b]));
}

/// `imageops::overlay`: copies `top` onto `bottom` with its upper left corner
/// at `(x, y)`, clipped to `bottom`. For pixels without alpha the blend that
/// the call applies is a plain copy.
#[verifier::external_body]
fn buffer_overlay(bottom: &mut PixelBuffer, top: &PixelBuffer, x: i64, y: i64)
    ensures
        buffer_size(*final(bottom)) == buffer_size(*old(bottom)),
        buffer_pixels(*final(bottom)) == spec_overlay(
            buffer_pixels(*old(bottom)),
            buffer_size(*old(bottom)),
            buffer_pixels(*top),
            buffer_size(*top),
            x as int,
            y as int,
        ),
{
    image::imageops::overlay(&mut bottom.img, &top.img, x, y);
}

/// The pixels of a raster of size `size` after a raster of size `top_size`
/// was copied onto it at `(x, y)`.
pub open spec fn spec_overlay(
    bottom: Seq<Color>,
    size: (nat, nat),
    top: Seq<Color>,
    top_size: (nat, nat),
    x: int,
    y: int,
) -> Seq<Color> {
    Seq::new(
        bottom.len(),
        |i: int|
            {
                let bx = i % (size.0 as int);
                let by = i / (size.0 as int);
                if x <= bx < x + top_size.0 && y <= by < y + top_size.1 {
                    top[(by - y) * top_size.0 + (bx - x)]
                } else {
                    bottom[i]
                }
            },
    )
}

/// The positions of column `x` in the rows `0 .. height`.
pub open spec fn spec_column_set(x: int, height: int) -> Set<(int, int)> {
    Set::new(|p: (int, int)| p.0 == x && 0 <= p.1 < height)
}

/// What a canvas is to a contract: its size and its pixels in row-major order.
pub struct Raster {
    pub width: nat,
    pub height: nat,
    pub pixels: Seq<Color>,
}

impl Raster {
    pub open spec fn wf(self) -> bool {
        self.pixels.len() == self.width * self.height
    }

    pub open spec fn contains(self, x: int, y: int) -> bool {
        0 <= x < self.width && 0 <= y < self.height
    }

    pub open spec fn index_of(self, x: int, y: int) -> int {
        y * self.width + x
    }

    pub open spec fn at(self, x: int, y: int) -> Color {
        self.pixels[self.index_of(x, y)]
    }

    /// A raster of the given size in one colour.
    pub open spec fn filled(width: nat, height: nat, fill: Color) -> Raster {
        Raster { width, height, pixels: Seq::new(width * height, |i: int| fill) }
    }

    /// This raster with every pixel reduced to its palette colour.
    pub open spec fn quantized(self) -> Raster {
        Raster { pixels: self.pixels.map_values(|p: Color| spec_quantized(p)), ..self }
    }

    /// This raster with `top` copied onto it, the upper left corner of `top`
    /// at `(x, y)`; what falls outside this raster is dropped.
    pub open spec fn overlaid(self, top: Raster, x: int, y: int) -> Raster {
        Raster {
            pixels: spec_overlay(
                self.pixels,
                (self.width, self.height),
                top.pixels,
                (top.width, top.height),
                x,
                y,
            ),
            ..self
        }
    }

    /// This raster with colour `c` at every position of `pts` that lies on
    /// it.
    pub open spec fn paint(self, pts: Set<(int, int)>, c: Color) -> Raster {
        Raster {
            pixels: Seq::new(
                self.pixels.len(),
                |i: int|
                    if pts.contains((i % (self.width as int), i / (self.width as int))) {
                        c
                    } else {
                        self.pixels[i]
                    },
            ),
            ..self
        }
    }

    /// This raster with one pixel replaced; unchanged where `(x, y)` lies
    /// outside it.
    pub open spec fn plot(self, x: int, y: int, c: Color) -> Raster {
        if self.contains(x, y) {
            Raster { pixels: self.pixels.update(self.index_of(x, y), c), ..self }
        } else {
            self
        }
    }
}

/// Every position inside a well-formed raster has its own index.
pub proof fn lemma_index_in_range(r: Raster, x: int, y: int)
    requires
        r.wf(),
        r.contains(x, y),
    ensures
        0 <= r.index_of(x, y) < r.pixels.len(),
        r.index_of(x, y) % (r.width as int) == x,
        r.index_of(x, y) / (r.width as int) == y,
{
    let w = r.width as int;
    let h = r.height as int;
    assert(y * w + x < h * w) by (nonlinear_arith)
        requires
            0 <= x < w,
            0 <= y < h,
    ;
    assert(0 <= y * w) by (nonlinear_arith)
        requires
            0 <= y,
            0 < w,
    ;
    vstd::arithmetic::div_mod::lemma_fundamental_div_mod_converse(y * w + x, w, y, x);
}

/// The position that an index of a well-formed raster stands for.
pub proof fn lemma_position_of_index(r: Raster, i: int)
    requires
        r.wf(),
        0 <= i < r.pixels.len(),
    ensures
        r.contains(i % (r.width as int), i / (r.width as int)),
        r.index_of(i % (r.width as int), i / (r.width as int)) == i,
{
    let w = r.width as int;
    let h = r.height as int;
    if w == 0 {
        assert(w * h == 0) by (nonlinear_arith)
            requires
                w == 0,
        ;
    }
    vstd::arithmetic::div_mod::lemma_fundamental_div_mod(i, w);
    vstd::arithmetic::div_mod::lemma_div_pos_is_pos(i, w);
    assert(w * (i / w) == (i / w) * w) by (nonlinear_arith);
    if i / w >= h {
        assert((i / w) * w >= h * w) by (nonlinear_arith)
            requires
                i / w >= h,
                w > 0,
        ;
    }
}

/// Painting no position changes nothing.
pub proof fn lemma_paint_nothing(r: Raster, c: Color)
    ensures
        r.paint(Set::empty(), c) == r,
{
    assert(r.paint(Set::empty(), c).pixels =~= r.pixels);
}

/// Plotting one more position is painting a set that holds it too.
pub proof fn lemma_paint_plot(r: Raster, pts: Set<(int, int)>, c: Color, x: int, y: int)
    requires
        r.wf(),
    ensures
        r.paint(pts, c).plot(x, y, c) == r.paint(pts.insert((x, y)), c),
{
    let a = r.paint(pts, c).plot(x, y, c);
    let b = r.paint(pts.insert((x, y)), c);
    if r.contains(x, y) {
        lemma_index_in_range(r, x, y);
    }
    assert(a.pixels.len() == b.pixels.len());
    assert forall|i: int| 0 <= i < a.pixels.len() implies #[trigger] a.pixels[i] == b.pixels[i] by {
        lemma_position_of_index(r, i);
    }
    assert(a.pixels =~= b.pixels);
}

/// Painting two sets in the same colour, one after the other, is painting
/// their union.
pub proof fn lemma_paint_union(r: Raster, a: Set<(int, int)>, b: Set<(int, int)>, c: Color)
    ensures
        r.paint(a, c).paint(b, c) == r.paint(a.union(b), c),
{
    assert(r.paint(a, c).paint(b, c).pixels =~= r.paint(a.union(b), c).pixels);
}

/// Two sets that hold the same positions of a raster paint it alike.
pub proof fn lemma_paint_same(r: Raster, a: Set<(int, int)>, b: Set<(int, int)>, c: Color)
    requires
        r.wf(),
        forall|x: int, y: int| r.contains(x, y) ==> a.contains((x, y)) == b.contains((x, y)),
    ensures
        r.paint(a, c) == r.paint(b, c),
{
    assert forall|i: int| 0 <= i < r.pixels.len() implies #[trigger] r.paint(a, c).pixels[i]
        == r.paint(b, c).pixels[i] by {
        lemma_position_of_index(r, i);
    }
    assert(r.paint(a, c).pixels =~= r.paint(b, c).pixels);
}

/// The positions that at least one of the sets holds.
pub open spec fn spec_union(sets: Seq<Set<(int, int)>>) -> Set<(int, int)> {
    Set::new(|p: (int, int)| exists|i: int| 0 <= i < sets.len() && #[trigger] sets[i].contains(p))
}

/// The union of no sets is empty, and one more set adds its positions.
pub proof fn lemma_union_push(sets: Seq<Set<(int, int)>>, more: Set<(int, int)>)
    ensures
        spec_union(Seq::empty()) == Set::<(int, int)>::empty(),
        spec_union(sets.push(more)) == spec_union(sets).union(more),
{
    assert(spec_union(Seq::empty()) =~= Set::<(int, int)>::empty());
    let a = spec_union(sets.push(more));
    let b = spec_union(sets).union(more);
    assert forall|p: (int, int)| a.contains(p) implies b.contains(p) by {
        let i = choose|i: int| 0 <= i < sets.push(more).len() && #[trigger] sets.push(more)[i].contains(p);
        if i < sets.len() {
            assert(sets[i].contains(p));
        }
    }
    assert forall|p: (int, int)| b.contains(p) implies a.contains(p) by {
        if more.contains(p) {
            assert(sets.push(more)[sets.len() as int].contains(p));
        } else {
            let i = choose|i: int| 0 <= i < sets.len() && #[trigger] sets[i].contains(p);
            assert(sets.push(more)[i].contains(p));
        }
    }
    assert(a =~= b);
}

/// The positions of a sequence of points up to the `k`-th, as a set.
pub proof fn lemma_points_step(pts: Seq<(int, int)>, k: int)
    requires
        0 <= k < pts.len(),
    ensures
        pts.take(0).to_set() == Set::<(int, int)>::empty(),
        pts.take(k + 1).to_set() == pts.take(k).to_set().insert(pts[k]),
{
    assert(pts.take(0).to_set() =~= Set::<(int, int)>::empty());
    let a = pts.take(k + 1).to_set();
    let b = pts.take(k).to_set().insert(pts[k]);
    assert forall|p: (int, int)| a.contains(p) implies b.contains(p) by {
        let i = choose|i: int| 0 <= i < pts.take(k + 1).len() && #[trigger] pts.take(k + 1)[i] == p;
        if i < k {
            assert(pts.take(k)[i] == p);
        }
    }
    assert forall|p: (int, int)| b.contains(p) implies a.contains(p) by {
        if p == pts[k] {
            assert(pts.take(k + 1)[k] == p);
        } else {
            let i = choose|i: int| 0 <= i < pts.take(k).len() && #[trigger] pts.take(k)[i] == p;
            assert(pts.take(k + 1)[i] == p);
        }
    }
    assert(a =~= b);
}

/// After quantization every pixel is white, black or red.
pub proof fn lemma_quantized_in_palette(r: Raster, i: int)
    requires
        0 <= i < r.pixels.len(),
    ensures
        crate::color::is_canonical(r.quantized().pixels[i]),
{
}

/// Quantizing a raster twice gives what quantizing it once gives.
pub proof fn lemma_quantize_idempotent(r: Raster)
    ensures
        r.quantized().quantized() == r.quantized(),
{
    assert(r.quantized().quantized().pixels =~= r.quantized().pixels);
}

/// A mutable RGB raster, created all white.
pub struct Canvas {
    img: PixelBuffer,
}

impl View for Canvas {
    type V = Raster;

    closed spec fn view(&self) -> Raster {
        Raster {
            width: buffer_size(self.img).0,
            height: buffer_size(self.img).1,
            pixels: buffer_pixels(self.img),
        }
    }
}

impl Canvas {
    /// The pixel count of a canvas has to fit the machine: three bytes each.
    pub open spec fn fits(width: u32, height: u32) -> bool {
        3 * width * height <= isize::MAX
    }

    /// An all-white canvas of the given size.
    pub fn new(width: u32, height: u32) -> (c: Canvas)
        requires
            Canvas::fits(width, height),
        ensures
            c@ == Raster::filled(width as nat, height as nat, Color::white()),
    {
        Canvas { img: buffer_filled(width, height, Color::white()) }
    }

    pub fn width(&self) -> (w: u32)
        ensures
            w == self@.width,
            self@.wf(),
    {
        buffer_width(&self.img)
    }

    pub fn height(&self) -> (h: u32)
        ensures
            h == self@.height,
    {
        buffer_height(&self.img)
    }

    pub fn get_pixel(&self, x: u32, y: u32) -> (p: Color)
        requires
            self@.contains(x as int, y as int),
        ensures
            p == self@.at(x as int, y as int),
    {
        buffer_get(&self.img, x, y)
    }

    pub fn put_pixel(&mut self, x: u32, y: u32, p: Color)
        requires
            old(self)@.contains(x as int, y as int),
        ensures
            final(self)@ == old(self)@.plot(x as int, y as int, p),
    {
        buffer_put(&mut self.img, x, y, p);
    }

    /// Copies `top` onto this canvas with its upper left corner at `(x, y)`:
    /// a plain copy without blending, clipped to this canvas.
    pub fn overlay(&mut self, top: &Canvas, x: i64, y: i64)
        ensures
            final(self)@ == old(self)@.overlaid(top@, x as int, y as int),
    {
        buffer_overlay(&mut self.img, &top.img, x, y);
    }

    /// Reduces every pixel to its palette colour, in place.
    pub fn quantize(&mut self)
        ensures
            final(self)@ == old(self)@.quantized(),
    {
        let w = self.width();
        let h = self.height();
        let ghost before = self@;
        let mut y: u32 = 0;
        while y < h
            invariant
                y <= h,
                self@.width == w,
                self@.height == h,
                before.width == w,
                before.height == h,
                before.wf(),
                self@.wf(),
                forall|i: int|
                    0 <= i < y * w ==> self@.pixels[i] == spec_quantized(#[trigger] before.pixels[i]),
                forall|i: int|
                    y * w <= i < h * w ==> self@.pixels[i] == #[trigger] before.pixels[i],
            decreases h - y,
        {
            let mut x: u32 = 0;
            while x < w
                invariant
                    x <= w,
                    y < h,
                    self@.width == w,
                    self@.height == h,
                    before.width == w,
                    before.height == h,
                    before.wf(),
                    self@.wf(),
                    forall|i: int|
                        0 <= i < y * w + x ==> self@.pixels[i] == spec_quantized(
                            #[trigger] before.pixels[i],
                        ),
                    forall|i: int|
                        y * w + x <= i < h * w ==> self@.pixels[i] == #[trigger] before.pixels[i],
                decreases w - x,
            {
                proof {
                    lemma_index_in_range(self@, x as int, y as int);
                }
                let p = self.get_pixel(x, y);
                self.put_pixel(x, y, classify(p).color());
                x += 1;
            }
            proof {
                assert((y + 1) * w == y * w + w) by (nonlinear_arith);
            }
            y += 1;
        }
        proof {
            assert(self@.pixels =~= before.quantized().pixels);
        }
    }

    /// Colours every pixel of column `x`; nothing where the canvas has no
    /// such column.
    pub fn draw_column(&mut self, x: i64, c: Color)
        ensures
            final(self)@ == old(self)@.paint(spec_column_set(x as int, old(self)@.height as int), c),
    {
        let w = self.width();
        let h = self.height();
        let ghost start = self@;
        proof {
            lemma_paint_nothing(start, c);
            assert(spec_column_set(x as int, 0) =~= Set::<(int, int)>::empty());
        }
        let mut y: u32 = 0;
        while y < h
            invariant
                y <= h,
                start.wf(),
                h == start.height,
                self@ == start.paint(spec_column_set(x as int, y as int), c),
            decreases h - y,
        {
            proof {
                lemma_paint_plot(start, spec_column_set(x as int, y as int), c, x as int, y as int);
                assert(spec_column_set(x as int, y + 1) =~= spec_column_set(
                    x as int,
                    y as int,
                ).insert((x as int, y as int)));
            }
            self.draw_pixel(x, y as i64, c);
            y += 1;
        }
    }

    /// Colours every point of `pts` that lies on the canvas.
    pub fn draw_points(&mut self, pts: &Vec<(i64, i64)>, c: Color)
        ensures
            final(self)@ == old(self)@.paint(crate::line::as_points(pts@).to_set(), c),
    {
        let _ = self.width();
        let ghost start = self@;
        let ghost all = crate::line::as_points(pts@);
        let n = pts.len();
        proof {
            lemma_paint_nothing(start, c);
            if n > 0 {
                lemma_points_step(all, 0);
            } else {
                assert(all.take(0).to_set() =~= Set::<(int, int)>::empty());
            }
        }
        let mut k: usize = 0;
        while k < n
            invariant
                k <= n,
                n == pts@.len(),
                all == crate::line::as_points(pts@),
                start.wf(),
                self@ == start.paint(all.take(k as int).to_set(), c),
            decreases n - k,
        {
            proof {
                lemma_points_step(all, k as int);
                lemma_paint_plot(start, all.take(k as int).to_set(), c, all[k as int].0, all[k as int].1);
            }
            let p = pts[k];
            self.draw_pixel(p.0, p.1, c);
            k += 1;
        }
        proof {
            assert(all.take(n as int) =~= all);
        }
    }

    /// Sets the pixel at `(x, y)` where that lies on the canvas, and does
    /// nothing where it does not.
    pub fn draw_pixel(&mut self, x: i64, y: i64, p: Color)
        ensures
            final(self)@ == old(self)@.plot(x as int, y as int, p),
    {
        if 0 <= x && x < self.width() as i64 && 0 <= y && y < self.height() as i64 {
            self.put_pixel(x as u32, y as u32, p);
        }
    }
}

} // verus!
