//! The bit-packed frame that the display controller reads.
//!
//! A frame holds two planes of one bit per pixel, the black/white plane
//! first and the chromatic plane after it. Each plane stores the rows from
//! the top, each row in `ceil(width / 8)` bytes, the leftmost pixel in the
//! highest bit.
use vstd::prelude::*;
use crate::canvas::{lemma_index_in_range, Canvas, Raster};
use crate::color::{spec_exact, Palette};

verus! {

/// Bytes that one row of one plane takes.
pub open spec fn row_bytes(width: nat) -> nat {
    (width + 7) / 8
}

/// Bytes of a whole frame: two planes of `height` rows.
pub open spec fn spec_frame_len(width: nat, height: nat) -> nat {
    2 * (row_bytes(width) * height)
}

/// The bit of a row byte that holds the pixel in column `pos`.
pub open spec fn spec_pixel_bit(pos: u32) -> u8 {
    0x80u8 >> ((pos % 8) as u8)
}

/// The two plane bits of a palette colour for the pixel in column `pos`:
/// the low byte goes to the black/white plane, the high byte to the
/// chromatic plane.
pub open spec fn spec_code_word(color: Palette, pos: u32) -> u16 {
    match color {
        Palette::Black => 0u16,
        Palette::White => spec_pixel_bit(pos) as u16,
        Palette::Chromatic => (spec_pixel_bit(pos) as u16) << 8 | (spec_pixel_bit(pos) as u16),
    }
}

/// `epd_waveshare::buffer_len`: the bytes of `height` rows of `width`
/// one-bit pixels. The preconditions keep the arithmetic of the call from
/// overflowing.
#[verifier::external_body]
fn plane_len(width: usize, height: usize) -> (n: usize)
    requires
        width + 7 <= usize::MAX,
        (width + 7) / 8 * height <= usize::MAX,
    ensures
        n == (width + 7) / 8 * height,
{
    epd_waveshare::buffer_len(width, height)
}

/// `TriColor::get_byte_value` of white: a byte of eight white pixels.
#[verifier::external_body]
fn white_byte() -> (b: u8)
    ensures
        b == 0xffu8,
{
    epd_waveshare::color::TriColor::White.get_byte_value()
}

/// `ColorType::bitmask` of `TriColor`, for a panel on which a set chromatic
/// bit overrides the black/white plane: the mask that clears the pixel's bit
/// in a row byte, and the bits to set for the colour in the two planes.
#[verifier::external_body]
fn tricolor_bitmask(color: Palette, pos: u32) -> (m: (u8, u16))
    ensures
        m.0 == !spec_pixel_bit(pos),
        m.1 == spec_code_word(color, pos),
{
    let c = match color {
        Palette::White => epd_waveshare::color::TriColor::White,
        Palette::Black => epd_waveshare::color::TriColor::Black,
        Palette::Chromatic => epd_waveshare::color::TriColor::Chromatic,
    };
    epd_waveshare::color::ColorType::bitmask(&c, false, pos)
}

/// Whether the bit for the `k`-th pixel of a row byte is set, `k` counted
/// from the left.
pub open spec fn bit_at(v: u8, k: u8) -> bool {
    v & (0x80u8 >> k) != 0
}

/// The byte whose `k`-th bit from the left is set where `bits(k)` holds.
pub open spec fn byte_of(bits: spec_fn(u8) -> bool) -> u8 {
    (if bits(0) { 0x80u8 } else { 0 }) | (if bits(1) { 0x40u8 } else { 0 }) | (if bits(2) {
        0x20u8
    } else {
        0
    }) | (if bits(3) { 0x10u8 } else { 0 }) | (if bits(4) { 0x08u8 } else { 0 }) | (if bits(5) {
        0x04u8
    } else {
        0
    }) | (if bits(6) { 0x02u8 } else { 0 }) | (if bits(7) { 0x01u8 } else { 0 })
}

/// The bit that a frame holds for column `x` of row `y` in the given plane
/// (0: black/white, 1: chromatic). White is (1, 0), black (0, 0), chromatic
/// (1, 1); the unused bits after the last column of a row stay set.
pub open spec fn spec_frame_bit(r: Raster, plane: int, y: int, x: int) -> bool {
    if x < r.width {
        match spec_exact(r.at(x, y)) {
            Palette::White => plane == 0,
            Palette::Black => false,
            Palette::Chromatic => true,
        }
    } else {
        true
    }
}

/// The byte of a frame at index `i`.
pub open spec fn spec_frame_byte(r: Raster, i: int) -> u8 {
    let rb = row_bytes(r.width) as int;
    let plane = i / (rb * r.height);
    let j = i % (rb * r.height);
    let y = j / rb;
    let c = j % rb;
    byte_of(|k: u8| spec_frame_bit(r, plane, y, 8 * c + k))
}

/// The frame of a raster.
pub open spec fn spec_pack(r: Raster) -> Seq<u8> {
    Seq::new(spec_frame_len(r.width, r.height), |i: int| spec_frame_byte(r, i))
}

proof fn lemma_byte_of_bits(v: u8)
    ensures
        v == byte_of(|k: u8| bit_at(v, k)),
{
    assert(v == (if v & (0x80u8 >> 0u8) != 0 { 0x80u8 } else { 0 }) | (if v & (0x80u8 >> 1u8) != 0 {
        0x40u8
    } else {
        0
    }) | (if v & (0x80u8 >> 2u8) != 0 { 0x20u8 } else { 0 }) | (if v & (0x80u8 >> 3u8) != 0 {
        0x10u8
    } else {
        0
    }) | (if v & (0x80u8 >> 4u8) != 0 { 0x08u8 } else { 0 }) | (if v & (0x80u8 >> 5u8) != 0 {
        0x04u8
    } else {
        0
    }) | (if v & (0x80u8 >> 6u8) != 0 { 0x02u8 } else { 0 }) | (if v & (0x80u8 >> 7u8) != 0 {
        0x01u8
    } else {
        0
    })) by (bit_vector);
}

proof fn lemma_store_bit(v: u8, k: u8, j: u8, b: u8)
    requires
        k < 8,
        j < 8,
        b == 0 || b == 0x80u8 >> k,
    ensures
        bit_at((v & !(0x80u8 >> k)) | b, j) == (if j == k {
            b != 0
        } else {
            bit_at(v, j)
        }),
{
    assert(((v & !(0x80u8 >> k)) | b) & (0x80u8 >> j) != 0 <==> (if j == k {
        b != 0
    } else {
        v & (0x80u8 >> j) != 0
    })) by (bit_vector)
        requires
            k < 8,
            j < 8,
            b == 0 || b == 0x80u8 >> k,
    ;
}

proof fn lemma_code_word(color: Palette, pos: u32)
    ensures
        ({
            let w = spec_code_word(color, pos);
            let bit = spec_pixel_bit(pos);
            let lo = (w & 0xff) as u8;
            let hi = (w >> 8) as u8;
            &&& bit == 0x80u8 >> ((pos % 8) as u8)
            &&& bit != 0
            &&& (lo == 0 || lo == bit)
            &&& (hi == 0 || hi == bit)
            &&& (lo != 0) == (color != Palette::Black)
            &&& (hi != 0) == (color == Palette::Chromatic)
        }),
{
    let k = (pos % 8) as u8;
    let bit = 0x80u8 >> k;
    assert(bit != 0 && ((bit as u16) & 0xff) as u8 == bit && ((bit as u16) >> 8) as u8 == 0
        && ((((bit as u16) << 8) | (bit as u16)) & 0xff) as u8 == bit && ((((bit as u16) << 8) | (
    bit as u16)) >> 8) as u8 == bit && ((0u16 & 0xff) as u8) == 0 && ((0u16 >> 8) as u8) == 0)
        by (bit_vector)
        requires
            k < 8,
            bit == 0x80u8 >> k,
    ;
}

/// Whether the frame of a raster of the given size can be held in memory.
pub open spec fn frame_fits(width: nat, height: nat) -> bool {
    width + 7 <= usize::MAX && spec_frame_len(width, height) <= usize::MAX
}

/// The length of the frame for a raster of the given size.
pub fn frame_len(width: u32, height: u32) -> (n: usize)
    requires
        frame_fits(width as nat, height as nat),
    ensures
        n == spec_frame_len(width as nat, height as nat),
{
    if width == 0 || height == 0 {
        proof {
            let rb = row_bytes(width as nat) as int;
            assert(rb * height == 0) by (nonlinear_arith)
                requires
                    rb == 0 || height == 0,
            ;
        }
        return 0;
    }
    proof {
        let rb = row_bytes(width as nat) as int;
        assert(rb * (2 * height) == 2 * (rb * height)) by (nonlinear_arith);
        assert(2 * height <= 2 * (rb * height)) by (nonlinear_arith)
            requires
                rb >= 1,
                height >= 0,
        ;
    }
    plane_len(width as usize, 2 * (height as usize))
}

/// One byte of one row in both planes: takes the two bytes as the frame
/// holds them before any pixel is written and stores the bits of up to
/// eight pixels in them.
fn pack_cell(canvas: &Canvas, y: u32, c: u32, blank: (u8, u8)) -> (cell: (u8, u8))
    requires
        canvas@.wf(),
        y < canvas@.height,
        c < row_bytes(canvas@.width),
        blank == (0xffu8, 0xffu8),
    ensures
        cell.0 == byte_of(|k: u8| spec_frame_bit(canvas@, 0, y as int, 8 * c + k)),
        cell.1 == byte_of(|k: u8| spec_frame_bit(canvas@, 1, y as int, 8 * c + k)),
{
    let w = canvas.width();
    let mut lo = blank.0;
    let mut hi = blank.1;
    let mut k: u8 = 0;
    proof {
        assert forall|j: u8| j < 8 implies #[trigger] bit_at(0xffu8, j) by {
            assert(0xffu8 & (0x80u8 >> j) != 0) by (bit_vector)
                requires
                    j < 8,
            ;
        }
    }
    while k < 8
        invariant
            k <= 8,
            canvas@.wf(),
            w == canvas@.width,
            y < canvas@.height,
            c < row_bytes(canvas@.width),
            forall|j: u8|
                j < 8 ==> #[trigger] bit_at(lo, j) == (if j < k {
                    spec_frame_bit(canvas@, 0, y as int, 8 * c + j)
                } else {
                    true
                }),
            forall|j: u8|
                j < 8 ==> #[trigger] bit_at(hi, j) == (if j < k {
                    spec_frame_bit(canvas@, 1, y as int, 8 * c + j)
                } else {
                    true
                }),
        decreases 8 - k,
    {
        let x: u64 = 8 * (c as u64) + k as u64;
        if x < w as u64 {
            let x = x as u32;
            let color = Palette::from_exact(canvas.get_pixel(x, y));
            let m = tricolor_bitmask(color, x);
            let lo_bits = (m.1 & 0xff) as u8;
            let hi_bits = (m.1 >> 8) as u8;
            proof {
                lemma_code_word(color, x);
                assert((x % 8) as u8 == k);
                assert forall|j: u8| j < 8 implies #[trigger] bit_at((lo & m.0) | lo_bits, j) == (
                if j < k + 1 {
                    spec_frame_bit(canvas@, 0, y as int, 8 * c + j)
                } else {
                    true
                }) by {
                    lemma_store_bit(lo, k, j, lo_bits);
                }
                assert forall|j: u8| j < 8 implies #[trigger] bit_at((hi & m.0) | hi_bits, j) == (
                if j < k + 1 {
                    spec_frame_bit(canvas@, 1, y as int, 8 * c + j)
                } else {
                    true
                }) by {
                    lemma_store_bit(hi, k, j, hi_bits);
                }
            }
            lo = (lo & m.0) | lo_bits;
            hi = (hi & m.0) | hi_bits;
        }
        k += 1;
    }
    proof {
        lemma_byte_of_bits(lo);
        lemma_byte_of_bits(hi);
    }
    (lo, hi)
}

/// Where the byte for byte column `c` of row `y` of a plane lies in a frame.
proof fn lemma_cell_index(r: Raster, plane: int, y: int, c: int)
    requires
        0 <= plane < 2,
        0 <= y < r.height,
        0 <= c < row_bytes(r.width),
    ensures
        ({
            let rb = row_bytes(r.width) as int;
            let i = plane * (rb * r.height) + y * rb + c;
            &&& 0 <= y * rb + c < rb * r.height
            &&& 0 <= i < spec_frame_len(r.width, r.height)
            &&& spec_frame_byte(r, i) == byte_of(|k: u8| spec_frame_bit(r, plane, y, 8 * c + k))
        }),
{
    let rb = row_bytes(r.width) as int;
    let h = r.height as int;
    let n = rb * h;
    let j = y * rb + c;
    let i = plane * n + j;
    assert(0 <= y * rb) by (nonlinear_arith)
        requires
            0 <= y,
            0 < rb,
    ;
    assert(y * rb + rb <= rb * h) by (nonlinear_arith)
        requires
            y + 1 <= h,
            0 < rb,
    ;
    assert(0 <= plane * n && plane * n + n <= 2 * n) by (nonlinear_arith)
        requires
            0 <= plane < 2,
            0 < n,
    ;
    vstd::arithmetic::div_mod::lemma_fundamental_div_mod_converse(j, rb, y, c);
    vstd::arithmetic::div_mod::lemma_fundamental_div_mod_converse(i, n, plane, j);
    assert(i / n == plane && i % n == j);
    assert(j / rb == y && j % rb == c);
}

proof fn lemma_bit_of_byte(bits: spec_fn(u8) -> bool, k: u8)
    requires
        k < 8,
    ensures
        bit_at(byte_of(bits), k) == bits(k),
{
    let part0 = if bits(0) { 0x80u8 } else { 0 };
    let part1 = if bits(1) { 0x40u8 } else { 0 };
    let part2 = if bits(2) { 0x20u8 } else { 0 };
    let part3 = if bits(3) { 0x10u8 } else { 0 };
    let part4 = if bits(4) { 0x08u8 } else { 0 };
    let part5 = if bits(5) { 0x04u8 } else { 0 };
    let part6 = if bits(6) { 0x02u8 } else { 0 };
    let part7 = if bits(7) { 0x01u8 } else { 0 };
    assert(((part0 | part1 | part2 | part3 | part4 | part5 | part6 | part7) & (0x80u8 >> k) != 0) == ((k == 0 && part0 != 0)
        || (k == 1 && part1 != 0) || (k == 2 && part2 != 0) || (k == 3 && part3 != 0) || (k == 4 && part4 != 0)
        || (k == 5 && part5 != 0) || (k == 6 && part6 != 0) || (k == 7 && part7 != 0))) by (bit_vector)
        requires
            k < 8,
            part0 == 0 || part0 == 0x80u8,
            part1 == 0 || part1 == 0x40u8,
            part2 == 0 || part2 == 0x20u8,
            part3 == 0 || part3 == 0x10u8,
            part4 == 0 || part4 == 0x08u8,
            part5 == 0 || part5 == 0x04u8,
            part6 == 0 || part6 == 0x02u8,
            part7 == 0 || part7 == 0x01u8,
    ;
}

/// Where a frame keeps the two bits of the pixel in column `x` of row `y`,
/// and what they are: the byte at `y * row_bytes + x / 8` of each plane, at
/// bit `7 - x % 8`, holds the plane bit of the pixel's palette code.
pub proof fn lemma_packed_pixel(r: Raster, x: int, y: int)
    requires
        r.wf(),
        r.contains(x, y),
    ensures
        ({
            let rb = row_bytes(r.width) as int;
            let at = y * rb + x / 8;
            let k = (x % 8) as u8;
            &&& 0 <= at < rb * r.height
            &&& spec_pack(r).len() == 2 * (rb * r.height)
            &&& bit_at(spec_pack(r)[at], k) == spec_frame_bit(r, 0, y, x)
            &&& bit_at(spec_pack(r)[rb * r.height + at], k) == spec_frame_bit(r, 1, y, x)
        }),
{
    let rb = row_bytes(r.width) as int;
    let c = x / 8;
    let k = (x % 8) as u8;
    lemma_cell_index(r, 0, y, c);
    lemma_cell_index(r, 1, y, c);
    assert(1 * (rb * r.height) == rb * r.height);
    assert(0 * (rb * r.height) == 0);
    lemma_bit_of_byte(|j: u8| spec_frame_bit(r, 0, y, 8 * c + j), k);
    lemma_bit_of_byte(|j: u8| spec_frame_bit(r, 1, y, 8 * c + j), k);
}

/// A pixel that is not exactly one of the three canonical colours packs to
/// the white code: its bit is set in the black/white plane and clear in the
/// chromatic plane.
pub proof fn lemma_stray_pixel_packs_white(r: Raster, x: int, y: int)
    requires
        r.wf(),
        r.contains(x, y),
        !crate::color::is_canonical(r.at(x, y)),
    ensures
        ({
            let rb = row_bytes(r.width) as int;
            let at = y * rb + x / 8;
            let k = (x % 8) as u8;
            &&& bit_at(spec_pack(r)[at], k)
            &&& !bit_at(spec_pack(r)[rb * r.height + at], k)
        }),
{
    lemma_packed_pixel(r, x, y);
}

/// Packs a canvas into the frame that the display controller reads. A pixel
/// that is exactly black or exactly red gets that palette code; every other
/// pixel packs as white.
pub fn pack(canvas: &Canvas) -> (frame: Vec<u8>)
    requires
        frame_fits(canvas@.width, canvas@.height),
    ensures
        frame@ == spec_pack(canvas@),
        frame@.len() == spec_frame_len(canvas@.width, canvas@.height),
{
    let w = canvas.width();
    let h = canvas.height();
    let total = frame_len(w, h);
    let mut frame: Vec<u8> = vec![white_byte(); total];
    if w == 0 || h == 0 {
        proof {
            let rb = row_bytes(w as nat) as int;
            assert(rb * h == 0) by (nonlinear_arith)
                requires
                    rb == 0 || h == 0,
            ;
            assert(frame@ =~= spec_pack(canvas@));
        }
        return frame;
    }
    let rb: usize = (w as usize + 7) / 8;
    let ghost r = canvas@;
    proof {
        assert(rb * h <= 2 * (rb * h)) by (nonlinear_arith)
            requires
                rb >= 0,
                h >= 0,
        ;
    }
    let plane: usize = total / 2;
    let mut y: u32 = 0;
    while y < h
        invariant
            y <= h,
            r == canvas@,
            r.wf(),
            w == r.width,
            h == r.height,
            w > 0,
            rb == row_bytes(r.width),
            plane == rb * h,
            total == 2 * plane,
            frame@.len() == total,
            forall|i: int| 0 <= i < y * rb ==> #[trigger] frame@[i] == spec_frame_byte(r, i),
            forall|i: int|
                0 <= i < y * rb ==> #[trigger] frame@[plane + i] == spec_frame_byte(r, plane + i),
            forall|i: int| y * rb <= i < plane ==> #[trigger] frame@[i] == 0xffu8,
            forall|i: int| y * rb <= i < plane ==> #[trigger] frame@[plane + i] == 0xffu8,
        decreases h - y,
    {
        let mut c: usize = 0;
        proof {
            assert(y * rb + rb <= rb * h) by (nonlinear_arith)
                requires
                    y + 1 <= h,
                    0 < rb,
            ;
        }
        while c < rb
            invariant
                c <= rb,
                y < h,
                r == canvas@,
                r.wf(),
                w == r.width,
                h == r.height,
                w > 0,
                rb == row_bytes(r.width),
                plane == rb * h,
                total == 2 * plane,
                frame@.len() == total,
                y * rb + rb <= plane,
                forall|i: int|
                    0 <= i < y * rb + c ==> #[trigger] frame@[i] == spec_frame_byte(r, i),
                forall|i: int|
                    0 <= i < y * rb + c ==> #[trigger] frame@[plane + i] == spec_frame_byte(
                        r,
                        plane + i,
                    ),
                forall|i: int| y * rb + c <= i < plane ==> #[trigger] frame@[i] == 0xffu8,
                forall|i: int| y * rb + c <= i < plane ==> #[trigger] frame@[plane + i] == 0xffu8,
            decreases rb - c,
        {
            proof {
                lemma_cell_index(r, 0, y as int, c as int);
                lemma_cell_index(r, 1, y as int, c as int);
                assert(1 * (rb * h) == plane);
                assert(0 * (rb * h) == 0);
            }
            let idx: usize = (y as usize) * rb + c;
            let cell = pack_cell(canvas, y, c as u32, (frame[idx], frame[plane + idx]));
            frame.set(idx, cell.0);
            frame.set(plane + idx, cell.1);
            c += 1;
        }
        proof {
            assert((y + 1) * rb == y * rb + rb) by (nonlinear_arith);
        }
        y += 1;
    }
    proof {
        assert(y * rb == plane) by (nonlinear_arith)
            requires
                y == h,
                plane == rb * h,
        ;
        assert forall|i: int| 0 <= i < total implies frame@[i] == spec_frame_byte(r, i) by {
            if i >= plane {
                assert(frame@[plane + (i - plane)] == spec_frame_byte(r, plane + (i - plane)));
            }
        }
        assert(frame@ =~= spec_pack(r));
    }
    frame
}

} // verus!
