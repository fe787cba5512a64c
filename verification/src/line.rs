//! Pixel-exact rasterization of straight line segments.
//!
//! A segment is walked along its longer axis, one pixel per step; the other
//! coordinate follows the exact line, rounded to the nearest pixel with ties
//! towards the starting end.
use vstd::prelude::*;
use vstd::arithmetic::div_mod::lemma_fundamental_div_mod_converse;

verus! {

pub open spec fn spec_abs(a: int) -> int {
    if a < 0 {
        -a
    } else {
        a
    }
}

/// How far the line has moved along its shorter axis after `k` steps along
/// the longer one, for a segment of `run` steps that rises by `rise`:
/// `k * rise / run`, rounded to the nearest integer, a half rounded down.
pub open spec fn spec_line_rise(k: int, run: int, rise: int) -> int {
    if run == 0 {
        0
    } else {
        (2 * k * rise + run - 1) / (2 * run)
    }
}

/// Number of pixels of the segment between two points.
pub open spec fn spec_line_len(x0: int, y0: int, x1: int, y1: int) -> nat {
    if spec_abs(y1 - y0) > spec_abs(x1 - x0) {
        (spec_abs(y1 - y0) + 1) as nat
    } else {
        (spec_abs(x1 - x0) + 1) as nat
    }
}

/// The `k`-th pixel of the segment between two points. The walk runs along
/// the x axis from the left end, or, where the segment is steeper than 45
/// degrees, along the y axis from the upper end.
pub open spec fn spec_line_point(x0: int, y0: int, x1: int, y1: int, k: int) -> (int, int) {
    if spec_abs(y1 - y0) > spec_abs(x1 - x0) {
        let (a0, b0, a1, b1) = if y0 > y1 {
            (y1, x1, y0, x0)
        } else {
            (y0, x0, y1, x1)
        };
        let n = spec_line_rise(k, a1 - a0, spec_abs(b1 - b0));
        (if b0 < b1 {
            b0 + n
        } else {
            b0 - n
        }, a0 + k)
    } else {
        let (a0, b0, a1, b1) = if x0 > x1 {
            (x1, y1, x0, y0)
        } else {
            (x0, y0, x1, y1)
        };
        let n = spec_line_rise(k, a1 - a0, spec_abs(b1 - b0));
        (a0 + k, if b0 < b1 {
            b0 + n
        } else {
            b0 - n
        })
    }
}

/// The pixels of the segment between two points, in the order of the walk.
pub open spec fn spec_line(x0: int, y0: int, x1: int, y1: int) -> Seq<(int, int)> {
    Seq::new(spec_line_len(x0, y0, x1, y1), |k: int| spec_line_point(x0, y0, x1, y1, k))
}

/// A sequence of machine points as mathematical points.
pub open spec fn as_points(pts: Seq<(i64, i64)>) -> Seq<(int, int)> {
    pts.map_values(|p: (i64, i64)| (p.0 as int, p.1 as int))
}

/// The rise after `k` steps is the `n` that keeps the doubled error term
/// `run - 2 * k * rise + 2 * run * n` in `0 .. 2 * run`.
proof fn lemma_rise_from_error(k: int, run: int, rise: int, n: int, err: int)
    requires
        run > 0,
        err == run - 2 * (k * rise) + 2 * (run * n),
        0 <= err < 2 * run,
    ensures
        spec_line_rise(k, run, rise) == n,
{
    let x = 2 * k * rise + run - 1;
    let d = 2 * run;
    let r = d - 1 - err;
    assert(2 * k * rise == 2 * (k * rise)) by (nonlinear_arith);
    assert(n * d == 2 * (run * n)) by (nonlinear_arith)
        requires
            d == 2 * run,
    ;
    assert(x == n * d + r);
    lemma_fundamental_div_mod_converse(x, d, n, r);
}

/// The rise never runs ahead of the line: it stays between 0 and `rise`
/// while `k` stays between 0 and `run`, and it reaches `rise` at the end.
pub proof fn lemma_rise_bounds(k: int, run: int, rise: int)
    requires
        0 <= k <= run,
        0 <= rise <= run,
    ensures
        0 <= spec_line_rise(k, run, rise) <= rise,
        spec_line_rise(0, run, rise) == 0,
        spec_line_rise(run, run, rise) == rise,
{
    if run > 0 {
        let d = 2 * run;
        assert(0 <= 2 * k * rise <= 2 * run * rise) by (nonlinear_arith)
            requires
                0 <= k <= run,
                0 <= rise,
        ;
        assert(2 * run * rise + run - 1 == rise * d + (run - 1)) by (nonlinear_arith)
            requires
                d == 2 * run,
        ;
        lemma_fundamental_div_mod_converse(2 * run * rise + run - 1, d, rise, run - 1);
        assert(2 * 0 * rise + run - 1 == 0 * d + (run - 1)) by (nonlinear_arith);
        lemma_fundamental_div_mod_converse(2 * 0 * rise + run - 1, d, 0, run - 1);
        vstd::arithmetic::div_mod::lemma_div_is_ordered(
            2 * 0 * rise + run - 1,
            2 * k * rise + run - 1,
            d,
        );
        vstd::arithmetic::div_mod::lemma_div_is_ordered(
            2 * k * rise + run - 1,
            2 * run * rise + run - 1,
            d,
        );
    }
}

/// The pixels of the segment from `(x0, y0)` to `(x1, y1)`.
pub fn line_points(x0: i64, y0: i64, x1: i64, y1: i64) -> (pts: Vec<(i64, i64)>)
    ensures
        as_points(pts@) == spec_line(x0 as int, y0 as int, x1 as int, y1 as int),
{
    let ghost line = spec_line(x0 as int, y0 as int, x1 as int, y1 as int);
    let wide_x: i128 = x1 as i128 - x0 as i128;
    let wide_y: i128 = y1 as i128 - y0 as i128;
    let abs_x: i128 = if wide_x < 0 { -wide_x } else { wide_x };
    let abs_y: i128 = if wide_y < 0 { -wide_y } else { wide_y };
    let steep = abs_y > abs_x;
    let (mut a0, mut b0, mut a1, mut b1) = if steep {
        (y0, x0, y1, x1)
    } else {
        (x0, y0, x1, y1)
    };
    if a0 > a1 {
        let (ta, tb) = (a0, b0);
        a0 = a1;
        b0 = b1;
        a1 = ta;
        b1 = tb;
    }
    let run: i128 = a1 as i128 - a0 as i128;
    let rise: i128 = if steep { abs_x } else { abs_y };
    let up = b0 < b1;
    assert(rise == spec_abs(b1 - b0));
    assert(0 <= rise <= run);
    let mut pts: Vec<(i64, i64)> = Vec::new();
    let mut k: i128 = 0;
    let mut n: i128 = 0;
    let mut err: i128 = run;
    proof {
        assert(0 * rise == 0 && run * 0 == 0) by (nonlinear_arith);
    }
    while k <= run
        invariant
            0 <= k <= run + 1,
            0 <= rise <= run,
            run == a1 - a0,
            run <= u64::MAX,
            rise == spec_abs(b1 - b0),
            up == (b0 < b1),
            steep == (spec_abs(y1 - y0) > spec_abs(x1 - x0)),
            steep ==> (a0, b0, a1, b1) == (if y0 > y1 {
                (y1, x1, y0, x0)
            } else {
                (y0, x0, y1, x1)
            }),
            !steep ==> (a0, b0, a1, b1) == (if x0 > x1 {
                (x1, y1, x0, y0)
            } else {
                (x0, y0, x1, y1)
            }),
            line == spec_line(x0 as int, y0 as int, x1 as int, y1 as int),
            line.len() == run + 1,
            k <= run && run > 0 ==> err == run - 2 * (k * rise) + 2 * (run * n) && 0 <= err < 2
                * run,
            run == 0 ==> n == 0,
            k <= run ==> 0 <= n <= rise,
            pts@.len() == k,
            forall|i: int| 0 <= i < k ==> (#[trigger] pts@[i].0 as int, pts@[i].1 as int) == line[i],
        decreases run + 1 - k,
    {
        proof {
            if run > 0 {
                lemma_rise_from_error(k as int, run as int, rise as int, n as int, err as int);
            }
            lemma_rise_bounds(k as int, run as int, rise as int);
        }
        let a: i64 = (a0 as i128 + k) as i64;
        let b: i64 = if up { (b0 as i128 + n) as i64 } else { (b0 as i128 - n) as i64 };
        if steep {
            pts.push((b, a));
        } else {
            pts.push((a, b));
        }
        proof {
            assert(line[k as int] == spec_line_point(
                x0 as int,
                y0 as int,
                x1 as int,
                y1 as int,
                k as int,
            ));
        }
        if k < run {
            proof {
                assert((k + 1) * rise == k * rise + rise) by (nonlinear_arith);
                assert(run * (n + 1) == run * n + run) by (nonlinear_arith);
            }
            err = err - 2 * rise;
            if err < 0 {
                n = n + 1;
                err = err + 2 * run;
            }
            proof {
                lemma_rise_from_error(
                    (k + 1) as int,
                    run as int,
                    rise as int,
                    n as int,
                    err as int,
                );
                lemma_rise_bounds((k + 1) as int, run as int, rise as int);
            }
        }
        k = k + 1;
    }
    proof {
        assert(as_points(pts@) =~= line);
    }
    pts
}

} // verus!
