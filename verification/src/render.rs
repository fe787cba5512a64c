//! The whole image: the header, the task list and the graph on one canvas,
//! reduced to the panel's colours and packed into a frame.
//!
//! A render pass has two steps, because a font rasterizer has to shape the
//! texts in between: [`display_texts`] says which texts the image shows,
//! and [`render`] takes them shaped and draws.
use vstd::prelude::*;
use crate::canvas::{Canvas, Raster};
use crate::color::Color;
use crate::decimal::{push_decimal, push_decimal_nat, spec_decimal, spec_decimal_nat};
use crate::draw::{
    check_labels,
    day_labels,
    draw_5day_graph,
    spec_graph,
    spec_is_labeled,
    spec_label_count,
    spec_label_error,
    spec_label_text,
    RenderError,
};
use crate::forecast::{spec_daily, spec_week, Forecast5Day};
use crate::frame::{frame_fits, pack, spec_pack};
use crate::tasks::{date_label, sorted_order, spec_date_label, spec_order, Date, Task};
use crate::text::{
    draw_text_bottom_right,
    draw_text_left,
    draw_text_right,
    measure_text,
    spec_measure,
    spec_position,
    text_ink,
    ShapedText,
};
use crate::weather::{CurrentWeather, ForecastSample};

verus! {

/// Font size of the current temperature, in pixels.
pub const TEMP_SIZE: u32 = 150;

/// Font size of the description of the current conditions.
pub const DESCRIPTION_SIZE: u32 = 50;

/// Font size of today's temperatures, of the time and of the day labels.
pub const HEADER_SIZE: u32 = 36;

/// Font size of the task rows and of the figures beside the graph.
pub const SMALL_SIZE: u32 = 24;

/// The moment of rendering in the viewer's time zone. It is taken once for
/// a render pass, so that everything that depends on the day agrees.
#[derive(Clone, Copy, Debug, PartialEq, Eq, Structural)]
pub struct LocalTime {
    pub date: Date,
    /// Hour of the day, 0 to 23.
    pub hour: u32,
}

/// What the image shows.
pub struct DisplayData {
    pub current_weather: CurrentWeather,
    pub forecast: Forecast5Day,
    pub todoist_tasks: Vec<Task>,
}

/// Where things go on the canvas, in pixels.
#[derive(Clone, Copy, Debug, PartialEq, Eq, Structural)]
pub struct Layout {
    pub canvas_width: u32,
    pub canvas_height: u32,
    /// Upper left corner and size of the graph.
    pub graph_x: u32,
    pub graph_y: u32,
    pub graph_width: u32,
    pub graph_height: u32,
    /// Upper left corner of the current temperature.
    pub header_x: u32,
    pub header_y: u32,
    /// Space between the current temperature and the description.
    pub description_gap: u32,
    /// Space between the current temperature and today's temperatures.
    pub today_gap: u32,
    /// Top of today's temperatures and of the time.
    pub today_y: u32,
    /// Column at which the time ends.
    pub time_right: u32,
    /// Space between the figures beside the graph and the graph.
    pub axis_gap: u32,
    /// Space between the graph and the first task row.
    pub task_gap: u32,
    pub task_row_height: u32,
    /// Columns of the due date and of the description of a task.
    pub task_date_x: u32,
    pub task_text_x: u32,
}

impl Layout {
    /// The layout for the panel of 800 by 480 pixels.
    pub open spec fn spec_panel() -> Layout {
        Layout {
            canvas_width: 800,
            canvas_height: 480,
            graph_x: 50,
            graph_y: 150,
            graph_width: 700,
            graph_height: 200,
            header_x: 10,
            header_y: 0,
            description_gap: 10,
            today_gap: 20,
            today_y: 10,
            time_right: 790,
            axis_gap: 10,
            task_gap: 20,
            task_row_height: 30,
            task_date_x: 50,
            task_text_x: 200,
        }
    }

    #[verifier::when_used_as_spec(spec_panel)]
    pub fn panel() -> (l: Layout)
        ensures
            l == Layout::spec_panel(),
            l.fits(),
    {
        Layout {
            canvas_width: 800,
            canvas_height: 480,
            graph_x: 50,
            graph_y: 150,
            graph_width: 700,
            graph_height: 200,
            header_x: 10,
            header_y: 0,
            description_gap: 10,
            today_gap: 20,
            today_y: 10,
            time_right: 790,
            axis_gap: 10,
            task_gap: 20,
            task_row_height: 30,
            task_date_x: 50,
            task_text_x: 200,
        }
    }

    /// Whether the canvas, the graph and the frame can be held in memory.
    pub open spec fn fits(self) -> bool {
        &&& Canvas::fits(self.canvas_width, self.canvas_height)
        &&& Canvas::fits(self.graph_width, self.graph_height)
        &&& frame_fits(self.canvas_width as nat, self.canvas_height as nat)
    }

    /// Top of the first task row.
    pub open spec fn first_row(self) -> int {
        self.graph_y + self.graph_height + self.task_gap
    }
}

/// The texts of one task row.
pub struct RowTexts {
    pub date: String,
    pub description: String,
}

/// The texts of an image, to be shaped at the font sizes of this module:
/// `temp` at [`TEMP_SIZE`], `description` at [`DESCRIPTION_SIZE`],
/// `today_temps`, `time` and `day_labels` at [`HEADER_SIZE`], the rest at
/// [`SMALL_SIZE`].
pub struct DisplayTexts {
    pub temp: String,
    pub description: String,
    pub today_temps: String,
    pub time: String,
    pub week_high: String,
    pub week_low: String,
    pub rows: Vec<RowTexts>,
    pub day_labels: Vec<String>,
}

/// One task row, shaped.
pub struct ShapedRow {
    pub date: ShapedText,
    pub description: ShapedText,
}

/// The texts of an image, shaped.
pub struct ShapedTexts {
    pub temp: ShapedText,
    pub description: ShapedText,
    pub today_temps: ShapedText,
    pub time: ShapedText,
    pub week_high: ShapedText,
    pub week_low: ShapedText,
    pub rows: Vec<ShapedRow>,
    pub day_labels: Vec<ShapedText>,
}

/// The degree sign.
pub open spec fn spec_degree() -> Seq<char> {
    seq!['\u{b0}']
}

/// The hour on a twelve-hour clock.
pub open spec fn spec_hour12(hour: int) -> int {
    if hour % 12 == 0 {
        12
    } else {
        hour % 12
    }
}

/// The time as the header shows it: month, day and the hour on a
/// twelve-hour clock, as in `5/20  3pm`.
pub open spec fn spec_time_text(now: LocalTime) -> Seq<char> {
    spec_decimal_nat(now.date.month as nat) + seq!['/'] + spec_decimal_nat(now.date.day as nat)
        + seq![' ', ' '] + spec_decimal_nat(spec_hour12(now.hour as int) as nat) + (if now.hour
        < 12 {
        seq!['a', 'm']
    } else {
        seq!['p', 'm']
    })
}

/// Today's temperatures as the header shows them: the high, then the low.
pub open spec fn spec_today_text(temps: (i32, i32)) -> Seq<char> {
    spec_decimal(temps.1 as int) + spec_degree() + seq![' '] + spec_decimal(temps.0 as int)
        + spec_degree()
}

/// Why the data cannot be shown on the day `today`, if it cannot: the
/// series is looked at first, then today's temperatures.
pub open spec fn spec_data_error(s: Seq<ForecastSample>, today: u32) -> Option<RenderError> {
    match spec_label_error(s) {
        Some(e) => Some(e),
        None => if spec_daily(s, today) is None {
            Some(RenderError::MissingDayTemps { day: today })
        } else {
            None
        },
    }
}

/// Why the data cannot be drawn with the shaped texts that were handed in,
/// if it cannot: after the data, the day labels are counted, then the task
/// rows.
pub open spec fn spec_render_error(
    s: Seq<ForecastSample>,
    today: u32,
    tasks: nat,
    labels: nat,
    rows: nat,
) -> Option<RenderError> {
    match spec_data_error(s, today) {
        Some(e) => Some(e),
        None => if labels != spec_label_count(s, s.len() as int) {
            Some(
                RenderError::LabelCount {
                    expected: spec_label_count(s, s.len() as int) as usize,
                    given: labels as usize,
                },
            )
        } else if rows != tasks {
            Some(RenderError::RowCount { expected: tasks as usize, given: rows as usize })
        } else {
            None
        },
    }
}

fn time_text(now: &LocalTime) -> (t: String)
    ensures
        t@ == spec_time_text(*now),
{
    let mut t = String::new();
    push_decimal_nat(&mut t, now.date.month as u64);
    t.append("/");
    push_decimal_nat(&mut t, now.date.day as u64);
    t.append("  ");
    let hour12 = if now.hour % 12 == 0 { 12 } else { now.hour % 12 };
    push_decimal_nat(&mut t, hour12 as u64);
    if now.hour < 12 {
        t.append("am");
    } else {
        t.append("pm");
    }
    proof {
        reveal_strlit("/");
        reveal_strlit("  ");
        reveal_strlit("am");
        reveal_strlit("pm");
        assert("/"@ =~= seq!['/']);
        assert("  "@ =~= seq![' ', ' ']);
        assert("am"@ =~= seq!['a', 'm']);
        assert("pm"@ =~= seq!['p', 'm']);
        assert(t@ =~= spec_time_text(*now));
    }
    t
}

fn push_degrees(out: &mut String, value: i32)
    ensures
        final(out)@ == old(out)@ + spec_decimal(value as int) + spec_degree(),
{
    push_decimal(out, value as i64);
    out.append("\u{b0}");
    proof {
        reveal_strlit("\u{b0}");
        assert("\u{b0}"@ =~= spec_degree());
    }
}

/// The texts that the image of `data` shows at the time `now`. The task
/// rows come in the order in which they are shown: by due date, tasks due
/// on the same day in the order of the list.
pub fn display_texts(now: &LocalTime, data: &DisplayData) -> (r: Result<DisplayTexts, RenderError>)
    ensures
        match r {
            Ok(t) => {
                let s = data.forecast@;
                let tasks = data.todoist_tasks@;
                let order = spec_order(tasks, tasks.len());
                &&& spec_data_error(s, now.date.day) is None
                &&& t.temp@ == spec_decimal(data.current_weather.temp_f as int) + spec_degree()
                &&& t.description@ == data.current_weather.description@
                &&& t.today_temps@ == spec_today_text(spec_daily(s, now.date.day)->Some_0)
                &&& t.time@ == spec_time_text(*now)
                &&& t.week_high@ == spec_decimal(spec_week(s)->Some_0.1 as int)
                &&& t.week_low@ == spec_decimal(spec_week(s)->Some_0.0 as int)
                &&& t.rows@.len() == tasks.len()
                &&& forall|k: int|
                    0 <= k < tasks.len() ==> (#[trigger] t.rows@[k]).date@ == spec_date_label(
                        tasks[order[k] as int].due_date,
                        now.date,
                    ) && t.rows@[k].description@ == tasks[order[k] as int].description@
                &&& t.day_labels@.len() == spec_label_count(s, s.len() as int)
                &&& forall|i: int|
                    0 <= i < s.len() && spec_is_labeled(s, i) ==> (
                    #[trigger] t.day_labels@[spec_label_count(s, i) as int])@ == spec_label_text(s, i)
            },
            Err(e) => spec_data_error(data.forecast@, now.date.day) == Some(e),
        },
{
    let labels = match day_labels(&data.forecast) {
        Err(e) => {
            return Err(e);
        },
        Ok(labels) => labels,
    };
    let today = match data.forecast.daily_minmax_temps(now.date.day) {
        None => {
            return Err(RenderError::MissingDayTemps { day: now.date.day });
        },
        Some(today) => today,
    };
    let week = match data.forecast.week_minmax_temps() {
        Some(week) => week,
        None => {
            proof {
                crate::forecast::lemma_extreme(data.forecast@, None, false, false);
                crate::forecast::lemma_extreme(data.forecast@, None, false, true);
                assert(crate::forecast::spec_counts(data.forecast@[0], None, false));
            }
            return Err(RenderError::InsufficientData);
        },
    };
    let mut temp = String::new();
    push_degrees(&mut temp, data.current_weather.temp_f);
    let mut today_temps = String::new();
    push_degrees(&mut today_temps, today.1);
    today_temps.append(" ");
    push_degrees(&mut today_temps, today.0);
    proof {
        reveal_strlit(" ");
        assert(" "@ =~= seq![' ']);
        assert(temp@ =~= spec_decimal(data.current_weather.temp_f as int) + spec_degree());
        assert(today_temps@ =~= spec_today_text(today));
    }
    let mut week_high = String::new();
    push_decimal(&mut week_high, week.1 as i64);
    let mut week_low = String::new();
    push_decimal(&mut week_low, week.0 as i64);
    proof {
        assert(week_high@ =~= spec_decimal(week.1 as int));
        assert(week_low@ =~= spec_decimal(week.0 as int));
    }
    let order = sorted_order(&data.todoist_tasks);
    let n = order.len();
    let mut rows: Vec<RowTexts> = Vec::new();
    let mut k: usize = 0;
    while k < n
        invariant
            k <= n,
            n == order@.len(),
            n == data.todoist_tasks@.len(),
            order@ == spec_order(data.todoist_tasks@, data.todoist_tasks@.len()),
            forall|j: int| 0 <= j < order@.len() ==> (#[trigger] order@[j]) < n,
            rows@.len() == k,
            forall|j: int|
                0 <= j < k ==> (#[trigger] rows@[j]).date@ == spec_date_label(
                    data.todoist_tasks@[order@[j] as int].due_date,
                    now.date,
                ) && rows@[j].description@ == data.todoist_tasks@[order@[j] as int].description@,
        decreases n - k,
    {
        let task = &data.todoist_tasks[order[k]];
        rows.push(
            RowTexts {
                date: date_label(task.due_date, now.date),
                description: task.description.clone(),
            },
        );
        k += 1;
    }
    Ok(
        DisplayTexts {
            temp,
            description: data.current_weather.description.clone(),
            today_temps,
            time: time_text(now),
            week_high,
            week_low,
            rows,
            day_labels: labels,
        },
    )
}

/// The header on a raster: the current temperature, the description
/// beside it at half its height, today's temperatures, the time ending at
/// its column, all in black; and in red, ending left of the graph, the
/// highest temperature of the series at the graph's top and the lowest at
/// its bottom.
pub open spec fn spec_header(r: Raster, layout: Layout, shaped: ShapedTexts) -> Raster {
    let temp = spec_measure(shaped.temp);
    let axis = layout.graph_x - layout.axis_gap;
    r.paint(
        text_ink(shaped.temp.glyphs@, layout.header_x as int, layout.header_y as int),
        Color::black(),
    ).paint(
        text_ink(
            shaped.description.glyphs@,
            layout.header_x + temp.0 + layout.description_gap,
            layout.header_y + temp.1 / 2,
        ),
        Color::black(),
    ).paint(
        text_ink(
            shaped.today_temps.glyphs@,
            layout.header_x + temp.0 + layout.today_gap,
            layout.today_y as int,
        ),
        Color::black(),
    ).paint(
        text_ink(
            shaped.time.glyphs@,
            spec_position(layout.time_right - spec_measure(shaped.time).0),
            layout.today_y as int,
        ),
        Color::black(),
    ).paint(
        text_ink(
            shaped.week_high.glyphs@,
            spec_position(axis - spec_measure(shaped.week_high).0),
            layout.graph_y as int,
        ),
        Color::red(),
    ).paint(
        text_ink(
            shaped.week_low.glyphs@,
            spec_position(axis - spec_measure(shaped.week_low).0),
            spec_position(layout.graph_y + layout.graph_height - spec_measure(shaped.week_low).1),
        ),
        Color::red(),
    )
}

/// The task rows from the `k`-th on, the `k`-th with its top at row `y`:
/// each row shows its date and its description in black, and the rows go
/// on until one ends at or beyond the bottom of the canvas. Rows that are
/// left then are not shown.
pub open spec fn spec_rows(r: Raster, layout: Layout, rows: Seq<ShapedRow>, k: int, y: int) -> Raster
    decreases rows.len() - k,
{
    if k < 0 || k >= rows.len() {
        r
    } else {
        let drawn = r.paint(
            text_ink(rows[k].date.glyphs@, layout.task_date_x as int, y),
            Color::black(),
        ).paint(
            text_ink(rows[k].description.glyphs@, layout.task_text_x as int, y),
            Color::black(),
        );
        if y + layout.task_row_height >= layout.canvas_height {
            drawn
        } else {
            spec_rows(drawn, layout, rows, k + 1, y + layout.task_row_height)
        }
    }
}

/// The image before it is reduced to the panel's colours: on white, the
/// header, the task rows under the graph, and the graph, copied over them
/// at its place.
pub open spec fn spec_compose(layout: Layout, s: Seq<ForecastSample>, shaped: ShapedTexts) -> Raster {
    let blank = Raster::filled(
        layout.canvas_width as nat,
        layout.canvas_height as nat,
        Color::white(),
    );
    spec_rows(spec_header(blank, layout, shaped), layout, shaped.rows@, 0, layout.first_row()).overlaid(
        spec_graph(s, layout.graph_width as nat, layout.graph_height as nat, shaped.day_labels@),
        layout.graph_x as int,
        layout.graph_y as int,
    )
}

/// The image: what [`spec_compose`] gives, every pixel reduced to its
/// palette colour.
pub open spec fn spec_render(layout: Layout, s: Seq<ForecastSample>, shaped: ShapedTexts) -> Raster {
    spec_compose(layout, s, shaped).quantized()
}

/// Task rows leave the size of a raster as it is.
proof fn lemma_rows_size(r: Raster, layout: Layout, rows: Seq<ShapedRow>, k: int, y: int)
    ensures
        spec_rows(r, layout, rows, k, y).width == r.width,
        spec_rows(r, layout, rows, k, y).height == r.height,
    decreases rows.len() - k,
{
    if 0 <= k < rows.len() && y + layout.task_row_height < layout.canvas_height {
        let drawn = r.paint(
            text_ink(rows[k].date.glyphs@, layout.task_date_x as int, y),
            Color::black(),
        ).paint(
            text_ink(rows[k].description.glyphs@, layout.task_text_x as int, y),
            Color::black(),
        );
        lemma_rows_size(drawn, layout, rows, k + 1, y + layout.task_row_height);
    }
}

fn draw_header(canvas: &mut Canvas, layout: &Layout, shaped: &ShapedTexts)
    ensures
        final(canvas)@ == spec_header(old(canvas)@, *layout, *shaped),
{
    let temp = measure_text(&shaped.temp);
    let axis: i64 = layout.graph_x as i64 - layout.axis_gap as i64;
    draw_text_left(canvas, &shaped.temp, layout.header_x as i64, layout.header_y as i64);
    draw_text_left(
        canvas,
        &shaped.description,
        layout.header_x as i64 + temp.0 + layout.description_gap as i64,
        layout.header_y as i64 + temp.1 / 2,
    );
    draw_text_left(
        canvas,
        &shaped.today_temps,
        layout.header_x as i64 + temp.0 + layout.today_gap as i64,
        layout.today_y as i64,
    );
    draw_text_right(
        canvas,
        &shaped.time,
        layout.time_right as i64,
        layout.today_y as i64,
        Color::black(),
    );
    draw_text_right(canvas, &shaped.week_high, axis, layout.graph_y as i64, Color::red());
    draw_text_bottom_right(
        canvas,
        &shaped.week_low,
        axis,
        layout.graph_y as i64 + layout.graph_height as i64,
        Color::red(),
    );
}

fn draw_rows(canvas: &mut Canvas, layout: &Layout, rows: &Vec<ShapedRow>)
    ensures
        final(canvas)@ == spec_rows(old(canvas)@, *layout, rows@, 0, layout.first_row()),
{
    let n = rows.len();
    let ghost goal = spec_rows(canvas@, *layout, rows@, 0, layout.first_row());
    let mut y: i64 = layout.graph_y as i64 + layout.graph_height as i64 + layout.task_gap as i64;
    let mut k: usize = 0;
    while k < n
        invariant_except_break
            k <= n,
            0 <= y <= 3 * u32::MAX,
            goal == spec_rows(canvas@, *layout, rows@, k as int, y as int),
        invariant
            n == rows@.len(),
        ensures
            goal == canvas@,
        decreases n - k,
    {
        draw_text_left(canvas, &rows[k].date, layout.task_date_x as i64, y);
        draw_text_left(canvas, &rows[k].description, layout.task_text_x as i64, y);
        y = y + layout.task_row_height as i64;
        k += 1;
        if y >= layout.canvas_height as i64 {
            break ;
        }
    }
}

/// Draws the image of `data`: composes header, task rows and graph on a
/// white canvas, reduces the canvas to the panel's colours and packs it.
/// Returns the frame for the display and the canvas it was packed from.
///
/// `shaped` holds the texts of [`display_texts`] for the same `now` and
/// `data`, shaped by a font rasterizer. Nothing is drawn where the data
/// cannot be shown or where the day labels or the task rows in `shaped` are
/// not as many as the data asks for.
pub fn render(layout: &Layout, now: &LocalTime, data: &DisplayData, shaped: &ShapedTexts) -> (r:
    Result<(Vec<u8>, Canvas), RenderError>)
    requires
        layout.fits(),
    ensures
        match r {
            Ok((frame, canvas)) => {
                &&& spec_render_error(
                    data.forecast@,
                    now.date.day,
                    data.todoist_tasks@.len(),
                    shaped.day_labels@.len(),
                    shaped.rows@.len(),
                ) is None
                &&& canvas@ == spec_render(*layout, data.forecast@, *shaped)
                &&& canvas@.width == layout.canvas_width
                &&& canvas@.height == layout.canvas_height
                &&& forall|i: int|
                    0 <= i < canvas@.pixels.len() ==> crate::color::is_canonical(
                        #[trigger] canvas@.pixels[i],
                    )
                &&& frame@ == spec_pack(canvas@)
            },
            Err(e) => spec_render_error(
                data.forecast@,
                now.date.day,
                data.todoist_tasks@.len(),
                shaped.day_labels@.len(),
                shaped.rows@.len(),
            ) == Some(e),
        },
{
    let count = match check_labels(&data.forecast) {
        Err(e) => {
            return Err(e);
        },
        Ok(count) => count,
    };
    if data.forecast.daily_minmax_temps(now.date.day).is_none() {
        return Err(RenderError::MissingDayTemps { day: now.date.day });
    }
    if shaped.day_labels.len() != count {
        return Err(RenderError::LabelCount { expected: count, given: shaped.day_labels.len() });
    }
    if shaped.rows.len() != data.todoist_tasks.len() {
        return Err(
            RenderError::RowCount {
                expected: data.todoist_tasks.len(),
                given: shaped.rows.len(),
            },
        );
    }
    let graph = match draw_5day_graph(
        &data.forecast,
        layout.graph_width,
        layout.graph_height,
        &shaped.day_labels,
    ) {
        Err(e) => {
            return Err(e);
        },
        Ok(graph) => graph,
    };
    let mut canvas = Canvas::new(layout.canvas_width, layout.canvas_height);
    draw_header(&mut canvas, layout, shaped);
    proof {
        lemma_rows_size(canvas@, *layout, shaped.rows@, 0, layout.first_row());
    }
    draw_rows(&mut canvas, layout, &shaped.rows);
    canvas.overlay(&graph, layout.graph_x as i64, layout.graph_y as i64);
    let ghost composed = canvas@;
    canvas.quantize();
    proof {
        assert forall|i: int| 0 <= i < canvas@.pixels.len() implies crate::color::is_canonical(
            #[trigger] canvas@.pixels[i],
        ) by {
            crate::canvas::lemma_quantized_in_palette(composed, i);
        }
    }
    let frame = pack(&canvas);
    Ok((frame, canvas))
}

} // verus!
