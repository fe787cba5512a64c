//! Where the graph puts a sample: the column for its place in the series
//! and the rows for its temperature and its chance of rain.
use vstd::prelude::*;
use vstd::arithmetic::div_mod::{
    lemma_div_is_ordered,
    lemma_div_multiples_vanish,
    lemma_fundamental_div_mod,
    lemma_fundamental_div_mod_converse,
};

verus! {

pub open spec fn spec_clamp(v: int, lo: int, hi: int) -> int {
    if v < lo {
        lo
    } else if v > hi {
        hi
    } else {
        v
    }
}

/// The column of the `i`-th of `n` samples on a graph `width` pixels wide.
/// The samples are `(width - 1) / (n - 1)` pixels apart, so that the first
/// stands in column 0 and the last in the last column; a sample between
/// two columns goes to the left one.
pub open spec fn spec_column(i: int, n: int, width: int) -> int {
    (i * (width - 1)) / (n - 1)
}

/// The row for a chance of rain in percent on a graph `height` pixels
/// high: 0 percent on the bottom row, 100 percent on the top row, and
/// `height - 1 - floor(rain * (height - 1) / 100)` in general, kept on the
/// graph.
pub open spec fn spec_rain_row(rain: int, height: int) -> int {
    spec_clamp(height - 1 - (rain * (height - 1)) / 100, 0, height - 1)
}

/// The row for a temperature on a graph `height` pixels high, where `low`
/// and `high` are the lowest and the highest temperature of the series. The
/// rows span the temperatures from `0.9 * low` to `1.1 * high`, so that the
/// curve keeps off the borders: the row is
/// `height - 1 - (t - 0.9 * low) / (1.1 * high - 0.9 * low) * (height - 1)`,
/// rounded down and kept on the graph. Where the span is empty the quotient
/// counts as infinite: the row is the top row, or the bottom row for a
/// temperature under `0.9 * low`.
pub open spec fn spec_temp_row(t: int, low: int, high: int, height: int) -> int {
    let over = (10 * t - 9 * low) * (height - 1);
    let span = 11 * high - 9 * low;
    if span == 0 {
        if 10 * t - 9 * low < 0 {
            spec_clamp(height - 1, 0, height - 1)
        } else {
            0
        }
    } else if span > 0 {
        spec_clamp(height - 1 + (-over) / span, 0, height - 1)
    } else {
        spec_clamp(height - 1 + over / (-span), 0, height - 1)
    }
}

/// The quotient of `a` by a positive `b`, rounded down.
fn floor_div(a: i128, b: i128) -> (q: i128)
    requires
        b > 0,
        a > i128::MIN / 2,
        b < i128::MAX / 2,
    ensures
        q == a / b,
        a >= 0 ==> 0 <= q <= a,
        a < 0 ==> a <= q < 0,
{
    if a >= 0 {
        proof {
            lemma_fundamental_div_mod(a as int, b as int);
            assert(a / b <= a && 0 <= a / b) by (nonlinear_arith)
                requires
                    a == b * (a / b) + a % b,
                    0 <= a % b < b,
                    a >= 0,
                    b >= 1,
            ;
        }
        a / b
    } else {
        let m: i128 = -a;
        let c: i128 = (m + b - 1) / b;
        proof {
            lemma_fundamental_div_mod(m + b - 1, b as int);
            let r = (m + b - 1) % (b as int);
            assert(b * c == c * b) by (nonlinear_arith);
            assert(a == (-c) * b + (b - 1 - r)) by (nonlinear_arith)
                requires
                    m + b - 1 == c * b + r,
                    a == -m,
            ;
            lemma_fundamental_div_mod_converse(a as int, b as int, -c, b - 1 - r);
            assert(1 <= c <= m) by (nonlinear_arith)
                requires
                    m + b - 1 == c * b + r,
                    0 <= r < b,
                    m >= 1,
                    b >= 1,
            ;
        }
        -c
    }
}

fn clamp_row(v: i128, height: u32) -> (y: u32)
    ensures
        y == spec_clamp(v as int, 0, spec_clamp(height - 1, 0, height - 1)),
        height > 0 ==> y == spec_clamp(v as int, 0, height - 1),
{
    if height == 0 || v < 0 {
        0
    } else if v > (height - 1) as i128 {
        height - 1
    } else {
        v as u32
    }
}

/// The column of the `i`-th of `n` samples; see [`spec_column`].
pub fn sample_column(i: usize, n: usize, width: u32) -> (x: u32)
    requires
        i < n,
        n >= 2,
        width >= 1,
    ensures
        x == spec_column(i as int, n as int, width as int),
        x < width,
{
    let span: i128 = width as i128 - 1;
    let last: i128 = n as i128 - 1;
    proof {
        assert(0 <= i * span <= last * span) by (nonlinear_arith)
            requires
                0 <= i <= last,
                0 <= span,
        ;
        assert(last * span <= usize::MAX * u32::MAX) by (nonlinear_arith)
            requires
                0 <= last <= usize::MAX,
                0 <= span <= u32::MAX,
        ;
        lemma_div_is_ordered(i * span, last * span, last as int);
        assert(last * span == last * span + 0);
        assert(last * span == span * last) by (nonlinear_arith);
        lemma_div_multiples_vanish(span as int, last as int);
        vstd::arithmetic::div_mod::lemma_div_pos_is_pos(i * span, last as int);
    }
    let x: i128 = (i as i128 * span) / last;
    x as u32
}

/// The row for a chance of rain; see [`spec_rain_row`]. A graph without
/// rows gives 0.
pub fn rain_row(rain: u64, height: u32) -> (y: u32)
    ensures
        height > 0 ==> y == spec_rain_row(rain as int, height as int) && y < height,
        height == 0 ==> y == 0,
{
    if height == 0 {
        return 0;
    }
    let span: i128 = height as i128 - 1;
    proof {
        assert(0 <= rain * span <= u64::MAX * u32::MAX) by (nonlinear_arith)
            requires
                0 <= rain <= u64::MAX,
                0 <= span <= u32::MAX,
        ;
    }
    let up: i128 = (rain as i128 * span) / 100;
    clamp_row(span - up, height)
}

/// The row for a temperature; see [`spec_temp_row`]. A graph without rows
/// gives 0.
pub fn temp_row(t: i32, low: i32, high: i32, height: u32) -> (y: u32)
    ensures
        height > 0 ==> y == spec_temp_row(t as int, low as int, high as int, height as int) && y
            < height,
        height == 0 ==> y == 0,
{
    if height == 0 {
        return 0;
    }
    let rows: i128 = height as i128 - 1;
    let lead: i128 = 10 * (t as i128) - 9 * (low as i128);
    let span: i128 = 11 * (high as i128) - 9 * (low as i128);
    proof {
        assert(-0x10_0000_0000_0000_0000_0000i128 <= lead * rows
            <= 0x10_0000_0000_0000_0000_0000i128) by (nonlinear_arith)
            requires
                -0x10_0000_0000i128 <= lead <= 0x10_0000_0000i128,
                0 <= rows <= 0xffff_ffffi128,
        ;
    }
    let over: i128 = lead * rows;
    if span == 0 {
        if lead < 0 {
            height - 1
        } else {
            0
        }
    } else if span > 0 {
        clamp_row(rows + floor_div(-over, span), height)
    } else {
        clamp_row(rows + floor_div(over, -span), height)
    }
}

} // verus!
