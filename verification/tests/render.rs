use halldisplay::{
    display_texts, render, Canvas, Color, CurrentWeather, Date, DisplayData, Forecast5Day,
    ForecastSample, Glyph, Layout, LocalTime, RenderError, ShapedRow, ShapedTexts, ShapedText,
    Task, Timestamp, Weekday,
};

const WHITE: Color = Color { r: 255, g: 255, b: 255 };
const BLACK: Color = Color { r: 0, g: 0, b: 0 };
const RED: Color = Color { r: 255, g: 0, b: 0 };

fn date(year: i32, month: u32, day: u32) -> Date {
    let d = chrono::NaiveDate::from_ymd_opt(year, month, day).unwrap();
    Date { day_number: chrono::Datelike::num_days_from_ce(&d), month, day }
}

fn weekday(d: chrono::Weekday) -> Weekday {
    match d {
        chrono::Weekday::Mon => Weekday::Mon,
        chrono::Weekday::Tue => Weekday::Tue,
        chrono::Weekday::Wed => Weekday::Wed,
        chrono::Weekday::Thu => Weekday::Thu,
        chrono::Weekday::Fri => Weekday::Fri,
        chrono::Weekday::Sat => Weekday::Sat,
        chrono::Weekday::Sun => Weekday::Sun,
    }
}

/// Forty samples, three hours apart, from 2023-05-20 00:00 at UTC-4.
fn forecast() -> Forecast5Day {
    let offset = chrono::FixedOffset::west_opt(4 * 3600).unwrap();
    let start = chrono::TimeZone::with_ymd_and_hms(&offset, 2023, 5, 20, 0, 0, 0).unwrap();
    let mut samples = Vec::new();
    for i in 0..40i64 {
        let t = start + chrono::Duration::hours(3 * i);
        samples.push(ForecastSample {
            time: Timestamp {
                epoch_secs: t.timestamp(),
                day: chrono::Datelike::day(&t),
                hour: chrono::Timelike::hour(&t),
                weekday: weekday(chrono::Datelike::weekday(&t)),
            },
            temp_f: 55 + ((i * 7) % 23) as i32,
            rain_prob: ((i * 13) % 101) as u64,
        });
    }
    Forecast5Day::from_samples(samples)
}

fn test_data(today: Date) -> DisplayData {
    let yesterday = Date { day_number: today.day_number - 1, month: 5, day: today.day - 1 };
    let tomorrow = Date { day_number: today.day_number + 1, month: 5, day: today.day + 1 };
    DisplayData {
        current_weather: CurrentWeather { description: "test data".into(), temp_f: 69, rain_in: 0 },
        forecast: forecast(),
        todoist_tasks: vec![
            Task { description: "test task".into(), due_date: today },
            Task { description: "task 2".into(), due_date: yesterday },
            Task { description: "task 3".into(), due_date: tomorrow },
        ],
    }
}

/// A stand-in for a font rasterizer: one box of `size` by `size / 2`
/// pixels for each character, drawn as a frame.
fn shape(text: &str, size: u32) -> ShapedText {
    let w = size / 2;
    let h = size;
    let mut glyphs = Vec::new();
    for (i, c) in text.chars().enumerate() {
        if c == ' ' {
            continue;
        }
        let mut coverage = vec![0u8; (w * h) as usize];
        for y in 0..h {
            for x in 0..w {
                if x == 0 || y == 0 || x == w - 1 || y == h - 1 {
                    coverage[(y * w + x) as usize] = 200;
                }
            }
        }
        glyphs.push(Glyph { left: (i as u32 * (w + 1)) as i32, top: 0, width: w, height: h, coverage });
    }
    ShapedText { glyphs, line_height: size }
}

fn shape_all(now: &LocalTime, data: &DisplayData) -> ShapedTexts {
    let texts = display_texts(now, data).unwrap();
    ShapedTexts {
        temp: shape(&texts.temp, halldisplay::TEMP_SIZE),
        description: shape(&texts.description, halldisplay::DESCRIPTION_SIZE),
        today_temps: shape(&texts.today_temps, halldisplay::HEADER_SIZE),
        time: shape(&texts.time, halldisplay::HEADER_SIZE),
        week_high: shape(&texts.week_high, halldisplay::SMALL_SIZE),
        week_low: shape(&texts.week_low, halldisplay::SMALL_SIZE),
        rows: texts
            .rows
            .iter()
            .map(|r| ShapedRow {
                date: shape(&r.date, halldisplay::SMALL_SIZE),
                description: shape(&r.description, halldisplay::SMALL_SIZE),
            })
            .collect(),
        day_labels: texts.day_labels.iter().map(|l| shape(l, halldisplay::HEADER_SIZE)).collect(),
    }
}

fn count(c: &Canvas, x0: u32, y0: u32, x1: u32, y1: u32, color: Color) -> usize {
    let mut n = 0;
    for y in y0..y1 {
        for x in x0..x1 {
            if c.get_pixel(x, y) == color {
                n += 1;
            }
        }
    }
    n
}

#[test]
fn test_render1() {
    let now = LocalTime { date: date(2023, 5, 20), hour: 15 };
    let data = test_data(now.date);
    let shaped = shape_all(&now, &data);
    let (buffer, image) = render(&Layout::panel(), &now, &data, &shaped).unwrap();

    assert_eq!(buffer.len(), 96000);
    assert_eq!(image.width(), 800);
    assert_eq!(image.height(), 480);

    let colors = [WHITE, BLACK, RED];
    for y in 0..480 {
        for x in 0..800 {
            let p = image.get_pixel(x, y);
            assert!(colors.contains(&p), "color at {x} {y} did not match: {p:#?}");
        }
    }
}

#[test]
fn texts_of_the_image() {
    let now = LocalTime { date: date(2023, 5, 20), hour: 15 };
    let data = test_data(now.date);
    let texts = display_texts(&now, &data).unwrap();
    assert_eq!(texts.temp, "69\u{b0}");
    assert_eq!(texts.description, "test data");
    let (low, high) = data.forecast.daily_minmax_temps(20).unwrap();
    assert_eq!(texts.today_temps, format!("{}\u{b0} {}\u{b0}", high, low));
    assert_eq!(texts.time, "5/20  3pm");
    let (week_low, week_high) = data.forecast.week_minmax_temps().unwrap();
    assert_eq!(texts.week_high, week_high.to_string());
    assert_eq!(texts.week_low, week_low.to_string());
    let rows: Vec<(String, String)> =
        texts.rows.iter().map(|r| (r.date.clone(), r.description.clone())).collect();
    assert_eq!(
        rows,
        vec![
            ("yesterday".to_string(), "task 2".to_string()),
            ("today".to_string(), "test task".to_string()),
            ("tomorrow".to_string(), "task 3".to_string()),
        ]
    );
    // the series runs from Saturday the 20th to Wednesday the 24th, which
    // gets no label
    assert_eq!(texts.day_labels.len(), 3);
    assert!(texts.day_labels[0].starts_with("S "));
    assert!(texts.day_labels[1].starts_with("M "));
    assert!(texts.day_labels[2].starts_with("T "));
}

#[test]
fn time_of_day_on_a_twelve_hour_clock() {
    let data = test_data(date(2023, 5, 20));
    for (hour, expected) in [(0, "5/20  12am"), (1, "5/20  1am"), (11, "5/20  11am"), (12, "5/20  12pm"), (13, "5/20  1pm"), (23, "5/20  11pm")] {
        let now = LocalTime { date: date(2023, 5, 20), hour };
        assert_eq!(display_texts(&now, &data).unwrap().time, expected);
    }
    let now = LocalTime { date: date(2023, 5, 21), hour: 9 };
    let october = LocalTime { date: Date { month: 10, ..now.date }, hour: 9 };
    assert_eq!(display_texts(&october, &data).unwrap().time, "10/21  9am");
}

#[test]
fn frame_holds_the_canvas() {
    let now = LocalTime { date: date(2023, 5, 20), hour: 15 };
    let data = test_data(now.date);
    let shaped = shape_all(&now, &data);
    let (buffer, image) = render(&Layout::panel(), &now, &data, &shaped).unwrap();
    assert_eq!(buffer, halldisplay::pack(&image));
    for (x, y) in [(0u32, 0u32), (10, 0), (799, 479), (50, 150), (400, 250), (60, 375)] {
        let at = (y * 100 + x / 8) as usize;
        let bit = 0x80u8 >> (x % 8);
        let p = image.get_pixel(x, y);
        assert_eq!(buffer[at] & bit != 0, p != BLACK);
        assert_eq!(buffer[48000 + at] & bit != 0, p == RED);
    }
}

#[test]
fn graph_is_copied_to_its_place() {
    let now = LocalTime { date: date(2023, 5, 20), hour: 15 };
    let data = test_data(now.date);
    let shaped = shape_all(&now, &data);
    let graph = halldisplay::draw_5day_graph(&data.forecast, 700, 200, &shaped.day_labels).unwrap();
    let (_, image) = render(&Layout::panel(), &now, &data, &shaped).unwrap();
    for y in 0..200 {
        for x in 0..700 {
            assert_eq!(image.get_pixel(50 + x, 150 + y), graph.get_pixel(x, y));
        }
    }
    assert!(count(&graph, 0, 0, 700, 200, RED) > 0);
    assert!(count(&graph, 0, 0, 700, 200, BLACK) > 0);
}

#[test]
fn header_and_rows_are_drawn() {
    let now = LocalTime { date: date(2023, 5, 20), hour: 15 };
    let data = test_data(now.date);
    let shaped = shape_all(&now, &data);
    let (_, image) = render(&Layout::panel(), &now, &data, &shaped).unwrap();
    // the temperature starts at (10, 0)
    assert_eq!(image.get_pixel(10, 0), BLACK);
    assert_eq!(image.get_pixel(9, 0), WHITE);
    // the time ends at column 790
    assert_eq!(image.get_pixel(789, 10), BLACK);
    assert_eq!(count(&image, 790, 0, 800, 150, BLACK), 0);
    // the week's high and low stand in red left of the graph
    assert!(count(&image, 0, 150, 40, 174, RED) > 0);
    assert!(count(&image, 0, 326, 40, 350, RED) > 0);
    assert_eq!(count(&image, 40, 150, 50, 350, RED), 0);
    // three task rows from row 370 on, 30 pixels apart
    for row in 0..3 {
        let y = 370 + 30 * row;
        assert_eq!(image.get_pixel(50, y), BLACK);
        assert_eq!(image.get_pixel(200, y), BLACK);
    }
    assert_eq!(count(&image, 0, 460, 800, 480, BLACK), 0);
}

#[test]
fn task_rows_stop_at_the_bottom_of_the_canvas() {
    let now = LocalTime { date: date(2023, 5, 20), hour: 15 };
    let mut data = test_data(now.date);
    for i in 0..4 {
        data.todoist_tasks.push(Task { description: format!("more {i}"), due_date: date(2023, 5, 25) });
    }
    let shaped = shape_all(&now, &data);
    assert_eq!(shaped.rows.len(), 7);
    let (_, image) = render(&Layout::panel(), &now, &data, &shaped).unwrap();
    // rows at 370, 400, 430 and 460; the next would start at 490
    for y in [370, 400, 430, 460] {
        assert_eq!(image.get_pixel(50, y), BLACK);
    }
    let tall = Layout { canvas_height: 600, ..Layout::panel() };
    let (frame, image) = render(&tall, &now, &data, &shaped).unwrap();
    assert_eq!(frame.len(), 2 * 100 * 600);
    for y in [370, 400, 430, 460, 490, 520, 550] {
        assert_eq!(image.get_pixel(50, y), BLACK);
    }
}

#[test]
fn render_at_another_size() {
    let now = LocalTime { date: date(2023, 5, 20), hour: 15 };
    let data = test_data(now.date);
    let shaped = shape_all(&now, &data);
    let small = Layout {
        canvas_width: 203,
        canvas_height: 97,
        graph_x: 11,
        graph_y: 30,
        graph_width: 150,
        graph_height: 40,
        ..Layout::panel()
    };
    let (frame, image) = render(&small, &now, &data, &shaped).unwrap();
    assert_eq!(frame.len(), 2 * 26 * 97);
    assert_eq!(image.width(), 203);
    assert_eq!(image.height(), 97);
    for y in 0..97 {
        for x in 0..203 {
            assert!([WHITE, BLACK, RED].contains(&image.get_pixel(x, y)));
        }
    }
}

#[test]
fn render_errors_come_in_order() {
    let now = LocalTime { date: date(2023, 5, 20), hour: 15 };
    let data = test_data(now.date);
    let shaped = shape_all(&now, &data);
    let panel = Layout::panel();

    let short = DisplayData { forecast: Forecast5Day::from_samples(vec![]), ..test_data(now.date) };
    assert_eq!(render(&panel, &now, &short, &shaped).err(), Some(RenderError::InsufficientData));
    assert_eq!(display_texts(&now, &short).err(), Some(RenderError::InsufficientData));

    let other_day = LocalTime { date: date(2023, 5, 30), hour: 15 };
    assert_eq!(
        render(&panel, &other_day, &data, &shaped).err(),
        Some(RenderError::MissingDayTemps { day: 30 })
    );
    assert_eq!(
        display_texts(&other_day, &data).err(),
        Some(RenderError::MissingDayTemps { day: 30 })
    );

    let mut fewer_labels = shape_all(&now, &data);
    fewer_labels.day_labels.pop();
    fewer_labels.rows.pop();
    assert_eq!(
        render(&panel, &now, &data, &fewer_labels).err(),
        Some(RenderError::LabelCount { expected: 3, given: 2 })
    );

    let mut fewer_rows = shape_all(&now, &data);
    fewer_rows.rows.pop();
    assert_eq!(
        render(&panel, &now, &data, &fewer_rows).err(),
        Some(RenderError::RowCount { expected: 3, given: 2 })
    );
}
