//! The forecast graph: day separators with their labels, the curve of the
//! chance of rain with the hatching under it, and the temperature curve on
//! top.
use vstd::prelude::*;
use crate::canvas::{
    lemma_paint_nothing,
    lemma_paint_plot,
    lemma_paint_same,
    lemma_paint_union,
    lemma_points_step,
    lemma_union_push,
    spec_column_set,
    spec_union,
    Canvas,
    Raster,
};
use crate::color::Color;
use crate::graph::{sample_column, rain_row, spec_clamp, spec_column, spec_rain_row, spec_temp_row, temp_row};
use crate::line::{as_points, line_points, spec_line};
use crate::decimal::{push_decimal, spec_decimal};
use crate::forecast::{spec_daily, spec_week, Forecast5Day};
use crate::text::{draw_text_left, text_ink, ShapedText};
use crate::weather::{ForecastSample, Weekday};

verus! {

/// Where the rain curve passes for the `i`-th sample.
pub open spec fn spec_rain_point(s: Seq<ForecastSample>, w: int, h: int, i: int) -> (int, int) {
    (spec_column(i, s.len() as int, w), spec_rain_row(s[i].rain_prob as int, h))
}

/// The points of a sequence, each moved to the nearest position on a
/// raster of width `w` and height `h`.
pub open spec fn spec_clamped(pts: Seq<(int, int)>, w: int, h: int) -> Seq<(int, int)> {
    pts.map_values(|p: (int, int)| (spec_clamp(p.0, 0, w - 1), spec_clamp(p.1, 0, h - 1)))
}

/// The pixels of the rain curve between the `i`-th sample and the next.
pub open spec fn spec_rain_segment(s: Seq<ForecastSample>, w: int, h: int, i: int) -> Set<
    (int, int),
> {
    let a = spec_rain_point(s, w, h, i);
    let b = spec_rain_point(s, w, h, i + 1);
    spec_clamped(spec_line(a.0, a.1, b.0, b.1), w, h).to_set()
}

/// The pixels of the first `n` segments of the rain curve.
pub open spec fn spec_rain_curve(s: Seq<ForecastSample>, w: int, h: int, n: int) -> Set<(int, int)> {
    spec_union(Seq::new(n as nat, |i: int| spec_rain_segment(s, w, h, i)))
}

/// Whether the hatching has ink at a position: a pattern of diagonal
/// strokes, two pixels wide and three high, that repeats every six pixels.
pub open spec fn spec_hatch(x: int, y: int) -> bool {
    let ym = y % 6;
    let xm = (x + 2 * (y / 6)) % 6;
    (xm == ym || xm == ym + 1) && ym < 3
}

/// Whether a position lies under a curve: the curve passes through its
/// column, and only above it.
pub open spec fn spec_below(curve: Set<(int, int)>, x: int, y: int) -> bool {
    &&& exists|t: int| #[trigger] curve.contains((x, t))
    &&& forall|t: int| #[trigger] curve.contains((x, t)) ==> t < y
}

/// The hatching under a curve.
pub open spec fn spec_shade(curve: Set<(int, int)>) -> Set<(int, int)> {
    Set::new(|p: (int, int)| spec_hatch(p.0, p.1) && spec_below(curve, p.0, p.1))
}

/// What a list of column tops says of a curve: for each column the lowest
/// row of the raster in which the curve passes, if it passes at all.
pub open spec fn spec_tops(tops: Seq<Option<u32>>, curve: Set<(int, int)>) -> bool {
    forall|x: int|
        0 <= x < tops.len() ==> match #[trigger] tops[x] {
            None => forall|y: int| !#[trigger] curve.contains((x, y)),
            Some(t) => curve.contains((x, t as int)) && forall|y: int| #[trigger]
                curve.contains((x, y)) ==> y <= t,
        }
}

/// Draws one segment of the rain curve and keeps the column tops.
fn draw_rain_segment(
    canvas: &mut Canvas,
    tops: &mut Vec<Option<u32>>,
    pts: &Vec<(i64, i64)>,
    Ghost(before): Ghost<Set<(int, int)>>,
)
    requires
        old(canvas)@.width >= 1,
        old(canvas)@.height >= 1,
        old(tops)@.len() == old(canvas)@.width,
        spec_tops(old(tops)@, before),
    ensures
        final(canvas)@ == old(canvas)@.paint(
            spec_clamped(as_points(pts@), old(canvas)@.width as int, old(canvas)@.height as int).to_set(),
            Color::black(),
        ),
        final(tops)@.len() == old(tops)@.len(),
        spec_tops(
            final(tops)@,
            before.union(
                spec_clamped(
                    as_points(pts@),
                    old(canvas)@.width as int,
                    old(canvas)@.height as int,
                ).to_set(),
            ),
        ),
{
    let w = canvas.width();
    let h = canvas.height();
    let ghost start = canvas@;
    let ghost all = spec_clamped(as_points(pts@), w as int, h as int);
    let n = pts.len();
    proof {
        lemma_paint_nothing(start, Color::black());
        assert(all.take(0).to_set() =~= Set::<(int, int)>::empty());
        assert(before.union(all.take(0).to_set()) =~= before);
    }
    let mut k: usize = 0;
    while k < n
        invariant
            k <= n,
            n == pts@.len(),
            all == spec_clamped(as_points(pts@), w as int, h as int),
            all.len() == n,
            start.wf(),
            w == start.width,
            h == start.height,
            w >= 1,
            h >= 1,
            tops@.len() == w,
            canvas@ == start.paint(all.take(k as int).to_set(), Color::black()),
            spec_tops(tops@, before.union(all.take(k as int).to_set())),
        decreases n - k,
    {
        let p = pts[k];
        let x: u32 = if p.0 < 0 {
            0
        } else if p.0 > (w - 1) as i64 {
            w - 1
        } else {
            p.0 as u32
        };
        let y: u32 = if p.1 < 0 {
            0
        } else if p.1 > (h - 1) as i64 {
            h - 1
        } else {
            p.1 as u32
        };
        let ghost seen = before.union(all.take(k as int).to_set());
        let ghost next = before.union(all.take(k + 1).to_set());
        proof {
            assert(all[k as int] == (x as int, y as int));
            lemma_points_step(all, k as int);
            lemma_paint_plot(start, all.take(k as int).to_set(), Color::black(), x as int, y as int);
            assert(next =~= seen.insert((x as int, y as int)));
        }
        let ghost old_tops = tops@;
        let raise = match tops[x as usize] {
            None => true,
            Some(t) => y > t,
        };
        if raise {
            tops.set(x as usize, Some(y));
        }
        canvas.put_pixel(x, y, Color::black());
        proof {
            assert forall|c: int| 0 <= c < tops@.len() implies match #[trigger] tops@[c] {
                None => forall|r: int| !#[trigger] next.contains((c, r)),
                Some(t) => next.contains((c, t as int)) && forall|r: int| #[trigger]
                    next.contains((c, r)) ==> r <= t,
            } by {
                assert(old_tops[c] == old_tops[c]);
                if c != x {
                    assert(tops@[c] == old_tops[c]);
                }
            }
        }
        k += 1;
    }
    proof {
        assert(all.take(n as int) =~= all);
    }
}

/// Draws the rain curve and returns the column tops under which the
/// hatching goes.
fn draw_rain(canvas: &mut Canvas, samples: &Vec<ForecastSample>) -> (tops: Vec<Option<u32>>)
    requires
        old(canvas)@.width >= 1,
        old(canvas)@.height >= 1,
        samples@.len() >= 2,
    ensures
        final(canvas)@ == old(canvas)@.paint(
            spec_rain_curve(
                samples@,
                old(canvas)@.width as int,
                old(canvas)@.height as int,
                samples@.len() - 1,
            ),
            Color::black(),
        ),
        tops@.len() == old(canvas)@.width,
        spec_tops(
            tops@,
            spec_rain_curve(
                samples@,
                old(canvas)@.width as int,
                old(canvas)@.height as int,
                samples@.len() - 1,
            ),
        ),
{
    let w = canvas.width();
    let h = canvas.height();
    let n = samples.len();
    let ghost start = canvas@;
    let ghost s = samples@;
    let mut tops: Vec<Option<u32>> = Vec::new();
    let mut c: u32 = 0;
    while c < w
        invariant
            c <= w,
            tops@.len() == c,
            forall|x: int| 0 <= x < c ==> #[trigger] tops@[x] == None::<u32>,
        decreases w - c,
    {
        tops.push(None);
        c += 1;
    }
    proof {
        lemma_paint_nothing(start, Color::black());
        lemma_union_push(Seq::empty(), Set::empty());
        assert(Seq::new(0, |i: int| spec_rain_segment(s, w as int, h as int, i)) =~= Seq::<
            Set<(int, int)>,
        >::empty());
    }
    let mut i: usize = 0;
    while i < n - 1
        invariant
            i <= n - 1,
            n == s.len(),
            n >= 2,
            s == samples@,
            start.wf(),
            w == start.width,
            h == start.height,
            w >= 1,
            h >= 1,
            tops@.len() == w,
            canvas@ == start.paint(spec_rain_curve(s, w as int, h as int, i as int), Color::black()),
            spec_tops(tops@, spec_rain_curve(s, w as int, h as int, i as int)),
        decreases n - 1 - i,
    {
        let x0 = sample_column(i, n, w);
        let y0 = rain_row(samples[i].rain_prob, h);
        let x1 = sample_column(i + 1, n, w);
        let y1 = rain_row(samples[i + 1].rain_prob, h);
        let pts = line_points(x0 as i64, y0 as i64, x1 as i64, y1 as i64);
        let ghost done = spec_rain_curve(s, w as int, h as int, i as int);
        let ghost more = spec_rain_segment(s, w as int, h as int, i as int);
        proof {
            assert(more == spec_clamped(as_points(pts@), w as int, h as int).to_set());
            let sets = Seq::new(i as nat, |j: int| spec_rain_segment(s, w as int, h as int, j));
            assert(Seq::new((i + 1) as nat, |j: int| spec_rain_segment(s, w as int, h as int, j))
                =~= sets.push(more));
            lemma_union_push(sets, more);
            lemma_paint_union(start, done, more, Color::black());
        }
        draw_rain_segment(canvas, &mut tops, &pts, Ghost(done));
        i += 1;
    }
    tops
}

/// The part of the hatching under a curve that lies on a raster of width
/// `w`, in its first `rows` rows and in the first `cols` columns of the row
/// after them.
pub open spec fn spec_shade_before(curve: Set<(int, int)>, w: int, rows: int, cols: int) -> Set<
    (int, int),
> {
    Set::new(
        |p: (int, int)|
            spec_shade(curve).contains(p) && 0 <= p.0 < w && 0 <= p.1 && (p.1 < rows || (p.1 == rows
                && p.0 < cols)),
    )
}

fn hatch(x: u32, y: u32) -> (b: bool)
    ensures
        b == spec_hatch(x as int, y as int),
{
    let ym = y % 6;
    let xm = (x as u64 + 2 * (y / 6) as u64) % 6;
    (xm == ym as u64 || xm == ym as u64 + 1) && ym < 3
}

/// Hatches the canvas under the curve whose column tops are given.
fn draw_shade(canvas: &mut Canvas, tops: &Vec<Option<u32>>, Ghost(curve): Ghost<Set<(int, int)>>)
    requires
        tops@.len() == old(canvas)@.width,
        spec_tops(tops@, curve),
    ensures
        final(canvas)@ == old(canvas)@.paint(spec_shade(curve), Color::black()),
{
    let w = canvas.width();
    let h = canvas.height();
    let ghost start = canvas@;
    proof {
        lemma_paint_nothing(start, Color::black());
        assert(spec_shade_before(curve, w as int, 0, 0) =~= Set::<(int, int)>::empty());
    }
    let mut y: u32 = 0;
    while y < h
        invariant
            y <= h,
            start.wf(),
            w == start.width,
            h == start.height,
            tops@.len() == w,
            spec_tops(tops@, curve),
            canvas@ == start.paint(spec_shade_before(curve, w as int, y as int, 0), Color::black()),
        decreases h - y,
    {
        let mut x: u32 = 0;
        while x < w
            invariant
                x <= w,
                y < h,
                start.wf(),
                w == start.width,
                h == start.height,
                tops@.len() == w,
                spec_tops(tops@, curve),
                canvas@ == start.paint(
                    spec_shade_before(curve, w as int, y as int, x as int),
                    Color::black(),
                ),
            decreases w - x,
        {
            let under = match tops[x as usize] {
                None => false,
                Some(t) => y > t,
            };
            let ghost before = spec_shade_before(curve, w as int, y as int, x as int);
            let ghost after = spec_shade_before(curve, w as int, y as int, x + 1);
            proof {
                assert(tops@[x as int] == tops@[x as int]);
                assert(under == spec_below(curve, x as int, y as int)) by {
                    match tops@[x as int] {
                        None => {},
                        Some(t) => {
                            assert(curve.contains((x as int, t as int)));
                        },
                    }
                }
            }
            if hatch(x, y) && under {
                proof {
                    assert(after =~= before.insert((x as int, y as int)));
                    lemma_paint_plot(start, before, Color::black(), x as int, y as int);
                }
                canvas.put_pixel(x, y, Color::black());
            } else {
                proof {
                    assert(after =~= before);
                }
            }
            x += 1;
        }
        proof {
            assert(spec_shade_before(curve, w as int, y as int, w as int) =~= spec_shade_before(
                curve,
                w as int,
                y + 1,
                0,
            ));
        }
        y += 1;
    }
    proof {
        lemma_paint_same(
            start,
            spec_shade_before(curve, w as int, h as int, 0),
            spec_shade(curve),
            Color::black(),
        );
    }
}

/// Where the temperature curve passes for the `i`-th sample, `low` and
/// `high` being the lowest and the highest temperature of the series.
pub open spec fn spec_temp_point(
    s: Seq<ForecastSample>,
    low: int,
    high: int,
    w: int,
    h: int,
    i: int,
) -> (int, int) {
    (spec_column(i, s.len() as int, w), spec_temp_row(s[i].temp_f as int, low, high, h))
}

/// The pixels of the temperature curve between the `i`-th sample and the
/// next, `shift` rows lower.
pub open spec fn spec_temp_line(
    s: Seq<ForecastSample>,
    low: int,
    high: int,
    w: int,
    h: int,
    i: int,
    shift: int,
) -> Set<(int, int)> {
    let a = spec_temp_point(s, low, high, w, h, i);
    let b = spec_temp_point(s, low, high, w, h, i + 1);
    spec_line(a.0, a.1 + shift, b.0, b.1 + shift).to_set()
}

/// The bold stroke of the temperature curve between the `i`-th sample and
/// the next: the line itself and its copies one row lower and one row
/// higher.
pub open spec fn spec_temp_segment(
    s: Seq<ForecastSample>,
    low: int,
    high: int,
    w: int,
    h: int,
    i: int,
) -> Set<(int, int)> {
    spec_temp_line(s, low, high, w, h, i, 1).union(spec_temp_line(s, low, high, w, h, i, 0)).union(
        spec_temp_line(s, low, high, w, h, i, -1),
    )
}

/// The pixels of the first `n` segments of the temperature curve.
pub open spec fn spec_temp_curve(
    s: Seq<ForecastSample>,
    low: int,
    high: int,
    w: int,
    h: int,
    n: int,
) -> Set<(int, int)> {
    spec_union(Seq::new(n as nat, |i: int| spec_temp_segment(s, low, high, w, h, i)))
}

/// Draws the temperature curve in red.
fn draw_temps(canvas: &mut Canvas, samples: &Vec<ForecastSample>, low: i32, high: i32)
    requires
        old(canvas)@.width >= 1,
        old(canvas)@.height >= 1,
        samples@.len() >= 2,
    ensures
        final(canvas)@ == old(canvas)@.paint(
            spec_temp_curve(
                samples@,
                low as int,
                high as int,
                old(canvas)@.width as int,
                old(canvas)@.height as int,
                samples@.len() - 1,
            ),
            Color::red(),
        ),
{
    let w = canvas.width();
    let h = canvas.height();
    let n = samples.len();
    let ghost start = canvas@;
    let ghost s = samples@;
    proof {
        lemma_paint_nothing(start, Color::red());
        lemma_union_push(Seq::empty(), Set::empty());
        assert(Seq::new(
            0,
            |i: int| spec_temp_segment(s, low as int, high as int, w as int, h as int, i),
        ) =~= Seq::<Set<(int, int)>>::empty());
    }
    let mut i: usize = 0;
    while i < n - 1
        invariant
            i <= n - 1,
            n == s.len(),
            n >= 2,
            s == samples@,
            start.wf(),
            w == start.width,
            h == start.height,
            w >= 1,
            h >= 1,
            canvas@ == start.paint(
                spec_temp_curve(s, low as int, high as int, w as int, h as int, i as int),
                Color::red(),
            ),
        decreases n - 1 - i,
    {
        let x0 = sample_column(i, n, w) as i64;
        let y0 = temp_row(samples[i].temp_f, low, high, h) as i64;
        let x1 = sample_column(i + 1, n, w) as i64;
        let y1 = temp_row(samples[i + 1].temp_f, low, high, h) as i64;
        let ghost done = spec_temp_curve(s, low as int, high as int, w as int, h as int, i as int);
        let ghost lower = spec_temp_line(s, low as int, high as int, w as int, h as int, i as int, 1);
        let ghost middle = spec_temp_line(s, low as int, high as int, w as int, h as int, i as int, 0);
        let ghost upper = spec_temp_line(
            s,
            low as int,
            high as int,
            w as int,
            h as int,
            i as int,
            -1,
        );
        proof {
            let sets = Seq::new(
                i as nat,
                |j: int| spec_temp_segment(s, low as int, high as int, w as int, h as int, j),
            );
            let more = spec_temp_segment(s, low as int, high as int, w as int, h as int, i as int);
            assert(Seq::new(
                (i + 1) as nat,
                |j: int| spec_temp_segment(s, low as int, high as int, w as int, h as int, j),
            ) =~= sets.push(more));
            lemma_union_push(sets, more);
            lemma_paint_union(start, done, lower, Color::red());
            lemma_paint_union(start, done.union(lower), middle, Color::red());
            lemma_paint_union(start, done.union(lower).union(middle), upper, Color::red());
            assert(done.union(lower).union(middle).union(upper) =~= done.union(more));
        }
        let below = line_points(x0, y0 + 1, x1, y1 + 1);
        canvas.draw_points(&below, Color::red());
        let along = line_points(x0, y0, x1, y1);
        canvas.draw_points(&along, Color::red());
        let above = line_points(x0, y0 - 1, x1, y1 - 1);
        canvas.draw_points(&above, Color::red());
        i += 1;
    }
}

/// Whether a new day starts with the `i`-th sample.
pub open spec fn spec_is_boundary(s: Seq<ForecastSample>, i: int) -> bool {
    0 < i < s.len() && s[i - 1].time.day != s[i].time.day
}

/// Whether the day that starts with the `i`-th sample gets a label: every
/// day that starts within the series does, but for the last day of the
/// series.
pub open spec fn spec_is_labeled(s: Seq<ForecastSample>, i: int) -> bool {
    spec_is_boundary(s, i) && s[i].time.day != s.last().time.day
}

/// Number of labelled days that start before the `i`-th sample.
pub open spec fn spec_label_count(s: Seq<ForecastSample>, i: int) -> nat
    decreases i,
{
    if i <= 0 {
        0
    } else {
        spec_label_count(s, i - 1) + if spec_is_labeled(s, i - 1) {
            1nat
        } else {
            0nat
        }
    }
}

/// The day of the first labelled day at or after the `from`-th sample that
/// lacks a low or a high.
pub open spec fn spec_first_missing(s: Seq<ForecastSample>, from: int) -> Option<u32>
    decreases s.len() - from,
{
    if from < 0 || from >= s.len() {
        None
    } else if spec_is_labeled(s, from) && spec_daily(s, s[from].time.day) is None {
        Some(s[from].time.day)
    } else {
        spec_first_missing(s, from + 1)
    }
}

/// Why nothing is drawn.
#[derive(Clone, Copy, Debug, PartialEq, Eq, Structural)]
pub enum RenderError {
    /// The series holds fewer than two samples.
    InsufficientData,
    /// A day whose temperatures are shown has no low or no high.
    MissingDayTemps { day: u32 },
    /// The number of shaped labels is not the number of labelled days.
    LabelCount { expected: usize, given: usize },
    /// The number of shaped task rows is not the number of tasks.
    RowCount { expected: usize, given: usize },
}

/// Why a series cannot be labelled, if it cannot.
pub open spec fn spec_label_error(s: Seq<ForecastSample>) -> Option<RenderError> {
    if s.len() < 2 {
        Some(RenderError::InsufficientData)
    } else {
        match spec_first_missing(s, 0) {
            Some(day) => Some(RenderError::MissingDayTemps { day }),
            None => None,
        }
    }
}

/// Why a series cannot be drawn with `given` shaped labels, if it cannot.
pub open spec fn spec_graph_error(s: Seq<ForecastSample>, given: nat) -> Option<RenderError> {
    match spec_label_error(s) {
        Some(e) => Some(e),
        None => if given != spec_label_count(s, s.len() as int) {
            Some(
                RenderError::LabelCount {
                    expected: spec_label_count(s, s.len() as int) as usize,
                    given: given as usize,
                },
            )
        } else {
            None
        },
    }
}

/// The text of the label of the day that starts with the `i`-th sample:
/// the first letter of the weekday, the day's high and the day's low.
pub open spec fn spec_label_text(s: Seq<ForecastSample>, i: int) -> Seq<char> {
    let temps = spec_daily(s, s[i].time.day)->Some_0;
    seq![s[i].time.weekday.spec_initial(), ' '] + spec_decimal(temps.1 as int) + seq![' ']
        + spec_decimal(temps.0 as int)
}

/// The last day of a series gets no label, whether it has a low and a high
/// or not.
pub proof fn lemma_last_day_unlabeled(s: Seq<ForecastSample>, i: int)
    requires
        0 <= i < s.len(),
        s[i].time.day == s.last().time.day,
    ensures
        !spec_is_labeled(s, i),
{
}

proof fn lemma_label_count_grows(s: Seq<ForecastSample>, i: int, j: int)
    requires
        i <= j,
    ensures
        spec_label_count(s, i) <= spec_label_count(s, j),
        spec_label_count(s, j) <= if j < 0 { 0 } else { j },
    decreases j - i, j,
{
    if j > 0 {
        lemma_label_count_grows(s, j - 1, j - 1);
    }
    if i < j {
        lemma_label_count_grows(s, i, j - 1);
    }
}

proof fn lemma_no_missing(s: Seq<ForecastSample>, from: int, i: int)
    requires
        0 <= from <= i < s.len(),
        spec_first_missing(s, from) is None,
        spec_is_labeled(s, i),
    ensures
        spec_daily(s, s[i].time.day) is Some,
    decreases i - from,
{
    if from < i {
        lemma_no_missing(s, from + 1, i);
    }
}

fn is_labeled(samples: &Vec<ForecastSample>, i: usize) -> (b: bool)
    requires
        i < samples@.len(),
    ensures
        b == spec_is_labeled(samples@, i as int),
{
    i > 0 && samples[i - 1].time.day != samples[i].time.day && samples[i].time.day
        != samples[samples.len() - 1].time.day
}

/// Looks for what keeps a series from being labelled, and counts the
/// labelled days.
pub(crate) fn check_labels(forecast: &Forecast5Day) -> (r: Result<usize, RenderError>)
    ensures
        match r {
            Ok(count) => spec_label_error(forecast@) is None && count == spec_label_count(
                forecast@,
                forecast@.len() as int,
            ),
            Err(e) => spec_label_error(forecast@) == Some(e),
        },
{
    let samples = forecast.filtered_forecast();
    let n = samples.len();
    if n < 2 {
        return Err(RenderError::InsufficientData);
    }
    let mut count: usize = 0;
    let mut i: usize = 0;
    while i < n
        invariant
            i <= n,
            n == samples@.len(),
            samples@ == forecast@,
            spec_first_missing(samples@, 0) == spec_first_missing(samples@, i as int),
            count == spec_label_count(samples@, i as int),
            count <= i,
        decreases n - i,
    {
        if is_labeled(samples, i) {
            let day = samples[i].time.day;
            if forecast.daily_minmax_temps(day).is_none() {
                return Err(RenderError::MissingDayTemps { day });
            }
            count += 1;
        }
        i += 1;
    }
    Ok(count)
}

fn initial_text(day: Weekday) -> (t: &'static str)
    ensures
        t@ == seq![day.spec_initial()],
{
    proof {
        reveal_strlit("M");
        reveal_strlit("T");
        reveal_strlit("W");
        reveal_strlit("F");
        reveal_strlit("S");
    }
    let t = match day {
        Weekday::Mon => "M",
        Weekday::Tue => "T",
        Weekday::Wed => "W",
        Weekday::Thu => "T",
        Weekday::Fri => "F",
        Weekday::Sat => "S",
        Weekday::Sun => "S",
    };
    assert(t@ =~= seq![day.spec_initial()]);
    t
}

/// The texts of the day labels of a graph, in the order of the days. The
/// graph takes them shaped, in this order.
pub fn day_labels(forecast: &Forecast5Day) -> (r: Result<Vec<String>, RenderError>)
    ensures
        match r {
            Ok(texts) => {
                &&& spec_label_error(forecast@) is None
                &&& texts@.len() == spec_label_count(forecast@, forecast@.len() as int)
                &&& forall|i: int|
                    0 <= i < forecast@.len() && spec_is_labeled(forecast@, i) ==> (
                    #[trigger] texts@[spec_label_count(forecast@, i) as int])@ == spec_label_text(
                        forecast@,
                        i,
                    )
            },
            Err(e) => spec_label_error(forecast@) == Some(e),
        },
{
    match check_labels(forecast) {
        Err(e) => {
            return Err(e);
        },
        Ok(_) => {},
    }
    let samples = forecast.filtered_forecast();
    let n = samples.len();
    let ghost s = samples@;
    let mut texts: Vec<String> = Vec::new();
    let mut i: usize = 0;
    while i < n
        invariant
            i <= n,
            n == s.len(),
            s == samples@,
            s == forecast@,
            spec_first_missing(s, 0) is None,
            texts@.len() == spec_label_count(s, i as int),
            forall|j: int|
                0 <= j < i && spec_is_labeled(s, j) ==> (#[trigger] texts@[spec_label_count(
                    s,
                    j,
                ) as int])@ == spec_label_text(s, j),
        decreases n - i,
    {
        if is_labeled(samples, i) {
            proof {
                lemma_no_missing(s, 0, i as int);
            }
            let sample = samples[i];
            let temps = forecast.daily_minmax_temps(sample.time.day).unwrap();
            let mut text = String::from_str(initial_text(sample.time.weekday));
            text.append(" ");
            push_decimal(&mut text, temps.1 as i64);
            text.append(" ");
            push_decimal(&mut text, temps.0 as i64);
            proof {
                reveal_strlit(" ");
                assert(" "@ =~= seq![' ']);
                assert(text@ =~= spec_label_text(s, i as int));
                assert forall|j: int| 0 <= j < i && spec_is_labeled(s, j) implies spec_label_count(
                    s,
                    j,
                ) < texts@.len() by {
                    lemma_label_count_grows(s, j + 1, i as int);
                }
            }
            texts.push(text);
        }
        i += 1;
    }
    Ok(texts)
}

/// What the day that starts with the `i`-th sample puts on the graph: a
/// separator over the full height in the sample's column and, where the day
/// is labelled, its label five pixels to the right of it at the top.
pub open spec fn spec_mark(
    s: Seq<ForecastSample>,
    w: int,
    h: int,
    labels: Seq<ShapedText>,
    i: int,
) -> Set<(int, int)> {
    let x = spec_column(i, s.len() as int, w);
    if !spec_is_boundary(s, i) {
        Set::empty()
    } else if spec_is_labeled(s, i) {
        spec_column_set(x, h).union(text_ink(labels[spec_label_count(s, i) as int].glyphs@, x + 5, 0))
    } else {
        spec_column_set(x, h)
    }
}

/// The separators and labels of the days that start before the `n`-th
/// sample.
pub open spec fn spec_marks(
    s: Seq<ForecastSample>,
    w: int,
    h: int,
    labels: Seq<ShapedText>,
    n: int,
) -> Set<(int, int)> {
    spec_union(Seq::new(n as nat, |i: int| spec_mark(s, w, h, labels, i)))
}

/// Draws the day separators and the day labels.
fn draw_marks(canvas: &mut Canvas, samples: &Vec<ForecastSample>, labels: &Vec<ShapedText>)
    requires
        old(canvas)@.width >= 1,
        samples@.len() >= 2,
        labels@.len() == spec_label_count(samples@, samples@.len() as int),
    ensures
        final(canvas)@ == old(canvas)@.paint(
            spec_marks(
                samples@,
                old(canvas)@.width as int,
                old(canvas)@.height as int,
                labels@,
                samples@.len() as int,
            ),
            Color::black(),
        ),
{
    let w = canvas.width();
    let h = canvas.height();
    let n = samples.len();
    let ghost start = canvas@;
    let ghost s = samples@;
    proof {
        lemma_paint_nothing(start, Color::black());
        lemma_union_push(Seq::empty(), Set::empty());
        assert(Seq::new(0, |i: int| spec_mark(s, w as int, h as int, labels@, i)) =~= Seq::<
            Set<(int, int)>,
        >::empty());
    }
    let mut next: usize = 0;
    let mut i: usize = 0;
    while i < n
        invariant
            i <= n,
            n == s.len(),
            n >= 2,
            s == samples@,
            start.wf(),
            w == start.width,
            h == start.height,
            w >= 1,
            labels@.len() == spec_label_count(s, n as int),
            next == spec_label_count(s, i as int),
            canvas@ == start.paint(
                spec_marks(s, w as int, h as int, labels@, i as int),
                Color::black(),
            ),
        decreases n - i,
    {
        let ghost done = spec_marks(s, w as int, h as int, labels@, i as int);
        let ghost more = spec_mark(s, w as int, h as int, labels@, i as int);
        proof {
            let sets = Seq::new(i as nat, |j: int| spec_mark(s, w as int, h as int, labels@, j));
            assert(Seq::new((i + 1) as nat, |j: int| spec_mark(s, w as int, h as int, labels@, j))
                =~= sets.push(more));
            lemma_union_push(sets, more);
            lemma_label_count_grows(s, i + 1, n as int);
        }
        if i > 0 && samples[i - 1].time.day != samples[i].time.day {
            let x = sample_column(i, n, w) as i64;
            let ghost bar = spec_column_set(x as int, h as int);
            proof {
                lemma_paint_union(start, done, bar, Color::black());
            }
            canvas.draw_column(x, Color::black());
            if is_labeled(samples, i) {
                let ghost ink = text_ink(labels@[next as int].glyphs@, x + 5, 0);
                proof {
                    lemma_paint_union(start, done.union(bar), ink, Color::black());
                    assert(done.union(bar).union(ink) =~= done.union(more));
                }
                draw_text_left(canvas, &labels[next], x + 5, 0);
                next += 1;
            }
        } else {
            proof {
                assert(done.union(more) =~= done);
            }
        }
        i += 1;
    }
}

/// The graph of a series on a raster of width `w` and height `h`: on white,
/// the day marks, the rain curve and the hatching under it in black, then
/// the temperature curve in red. A raster without pixels stays as it is.
pub open spec fn spec_graph(s: Seq<ForecastSample>, w: nat, h: nat, labels: Seq<ShapedText>) -> Raster {
    let blank = Raster::filled(w, h, Color::white());
    if w == 0 || h == 0 {
        blank
    } else {
        let last = s.len() - 1;
        let week = spec_week(s)->Some_0;
        let rain = spec_rain_curve(s, w as int, h as int, last);
        blank.paint(spec_marks(s, w as int, h as int, labels, s.len() as int), Color::black()).paint(
            rain,
            Color::black(),
        ).paint(spec_shade(rain), Color::black()).paint(
            spec_temp_curve(s, week.0 as int, week.1 as int, w as int, h as int, last),
            Color::red(),
        )
    }
}

/// Draws the graph of a forecast on a canvas of its own. `labels` holds the
/// texts of [`day_labels`], shaped, in their order.
///
/// The graph is refused for a series of fewer than two samples, for a
/// labelled day without a low or a high, and for a wrong number of labels,
/// in this order; otherwise it is drawn.
pub fn draw_5day_graph(
    forecast: &Forecast5Day,
    width: u32,
    height: u32,
    labels: &Vec<ShapedText>,
) -> (r: Result<Canvas, RenderError>)
    requires
        Canvas::fits(width, height),
    ensures
        match r {
            Ok(canvas) => {
                &&& spec_graph_error(forecast@, labels@.len()) is None
                &&& canvas@ == spec_graph(forecast@, width as nat, height as nat, labels@)
                &&& canvas@.width == width
                &&& canvas@.height == height
                &&& canvas@.pixels.len() == width * height
            },
            Err(e) => spec_graph_error(forecast@, labels@.len()) == Some(e),
        },
{
    let count = match check_labels(forecast) {
        Err(e) => {
            return Err(e);
        },
        Ok(count) => count,
    };
    if labels.len() != count {
        return Err(RenderError::LabelCount { expected: count, given: labels.len() });
    }
    let mut canvas = Canvas::new(width, height);
    let _ = canvas.width();
    if width == 0 || height == 0 {
        return Ok(canvas);
    }
    let samples = forecast.filtered_forecast();
    let (low, high) = match forecast.week_minmax_temps() {
        Some(week) => week,
        None => {
            proof {
                crate::forecast::lemma_extreme(forecast@, None, false, false);
                crate::forecast::lemma_extreme(forecast@, None, false, true);
                assert(crate::forecast::spec_counts(forecast@[0], None, false));
            }
            return Err(RenderError::InsufficientData);
        },
    };
    draw_marks(&mut canvas, samples, labels);
    let tops = draw_rain(&mut canvas, samples);
    draw_shade(
        &mut canvas,
        &tops,
        Ghost(spec_rain_curve(samples@, width as int, height as int, samples@.len() - 1)),
    );
    draw_temps(&mut canvas, samples, low, high);
    let _ = canvas.width();
    Ok(canvas)
}

/// A graph has one pixel for each column of each row, and once it is
/// reduced to the panel's colours every pixel is white, black or red.
pub proof fn lemma_graph_pixels(s: Seq<ForecastSample>, w: nat, h: nat, labels: Seq<ShapedText>)
    ensures
        spec_graph(s, w, h, labels).width == w,
        spec_graph(s, w, h, labels).height == h,
        spec_graph(s, w, h, labels).pixels.len() == w * h,
        spec_graph(s, w, h, labels).quantized().pixels.len() == w * h,
        forall|i: int|
            0 <= i < w * h ==> crate::color::is_canonical(
                #[trigger] spec_graph(s, w, h, labels).quantized().pixels[i],
            ),
{
    let graph = spec_graph(s, w, h, labels);
    assert forall|i: int| 0 <= i < w * h implies crate::color::is_canonical(
        #[trigger] graph.quantized().pixels[i],
    ) by {
        crate::canvas::lemma_quantized_in_palette(graph, i);
    }
}

} // verus!
