use halldisplay::{
    day_labels, draw_5day_graph, Canvas, Color, Forecast5Day, ForecastSample, Glyph, RenderError,
    ShapedText, Timestamp, Weekday,
};

const WHITE: Color = Color { r: 255, g: 255, b: 255 };
const BLACK: Color = Color { r: 0, g: 0, b: 0 };
const RED: Color = Color { r: 255, g: 0, b: 0 };

fn sample(day: u32, hour: u32, weekday: Weekday, temp_f: i32, rain_prob: u64) -> ForecastSample {
    ForecastSample {
        time: Timestamp {
            epoch_secs: (day as i64) * 86400 + (hour as i64) * 3600,
            day,
            hour,
            weekday,
        },
        temp_f,
        rain_prob,
    }
}

/// Three days of four samples each: Friday the 19th to Sunday the 21st.
fn three_days() -> Forecast5Day {
    let mut samples = Vec::new();
    for (day, weekday, base) in [(19, Weekday::Fri, 50), (20, Weekday::Sat, 60), (21, Weekday::Sun, 40)] {
        for (k, hour) in [0u32, 6, 12, 18].into_iter().enumerate() {
            samples.push(sample(day, hour, weekday, base + k as i32, 10 * k as u64));
        }
    }
    Forecast5Day::from_samples(samples)
}

fn dot(left: i32, top: i32) -> ShapedText {
    ShapedText {
        glyphs: vec![Glyph { left, top, width: 1, height: 1, coverage: vec![255] }],
        line_height: 1,
    }
}

fn rows(c: &Canvas) -> Vec<String> {
    let mut out = Vec::new();
    for y in 0..c.height() {
        let mut row = String::new();
        for x in 0..c.width() {
            let p = c.get_pixel(x, y);
            row.push(if p == WHITE {
                '.'
            } else if p == BLACK {
                '#'
            } else if p == RED {
                'r'
            } else {
                '?'
            });
        }
        out.push(row);
    }
    out
}

#[test]
fn graph_of_the_three_sample_series() {
    let forecast = Forecast5Day::from_samples(vec![
        sample(1, 0, Weekday::Mon, 50, 0),
        sample(1, 3, Weekday::Mon, 60, 50),
        sample(1, 6, Weekday::Mon, 40, 100),
    ]);
    let graph = draw_5day_graph(&forecast, 3, 10, &vec![]).unwrap();
    assert_eq!(
        rows(&graph),
        vec![".r#", ".r#", "rr#", "rr.", "rrr", "rrr", ".#r", ".#r", "##r", "#.."]
    );
}

#[test]
fn graph_has_the_size_asked_for() {
    let forecast = three_days();
    for (w, h) in [(23u32, 20u32), (700, 200), (1, 1), (2, 57), (100, 1), (0, 10), (10, 0), (0, 0)] {
        let graph = draw_5day_graph(&forecast, w, h, &vec![dot(0, 0)]).unwrap();
        assert_eq!(graph.width(), w);
        assert_eq!(graph.height(), h);
    }
}

#[test]
fn graph_pixels_are_in_the_palette_after_quantization() {
    let forecast = three_days();
    let mut graph = draw_5day_graph(&forecast, 97, 41, &vec![dot(0, 0)]).unwrap();
    graph.quantize();
    let mut seen = [false; 3];
    for y in 0..41 {
        for x in 0..97 {
            let p = graph.get_pixel(x, y);
            assert!([WHITE, BLACK, RED].contains(&p));
            seen[[WHITE, BLACK, RED].iter().position(|c| *c == p).unwrap()] = true;
        }
    }
    assert_eq!(seen, [true, true, true]);
}

#[test]
fn separators_stand_where_a_day_starts() {
    let forecast = three_days();
    // twelve samples on 23 columns: sample i stands in column 2 * i
    let graph = draw_5day_graph(&forecast, 23, 20, &vec![dot(0, 0)]).unwrap();
    for x in [8u32, 16] {
        for y in 0..20 {
            assert_ne!(graph.get_pixel(x, y), WHITE);
        }
    }
    // the column before a separator is not a separator
    assert!((0..20).any(|y| graph.get_pixel(7, y) == WHITE));
}

#[test]
fn label_goes_five_pixels_right_of_its_separator() {
    let forecast = three_days();
    let with = draw_5day_graph(&forecast, 23, 20, &vec![dot(0, 0)]).unwrap();
    let without = draw_5day_graph(&forecast, 23, 20, &vec![dot(-100, 0)]).unwrap();
    assert_eq!(with.get_pixel(13, 0), BLACK);
    assert_eq!(without.get_pixel(13, 0), WHITE);
    for y in 0..20 {
        for x in 0..23 {
            if (x, y) != (13, 0) {
                assert_eq!(with.get_pixel(x, y), without.get_pixel(x, y));
            }
        }
    }
}

#[test]
fn last_day_gets_no_label() {
    let forecast = three_days();
    // the 21st has a low and a high, and still no label
    assert_eq!(forecast.daily_minmax_temps(21), Some((43, 43)));
    assert_eq!(day_labels(&forecast), Ok(vec!["S 63 63".to_string()]));
}

#[test]
fn labels_name_weekday_high_and_low() {
    let forecast = Forecast5Day::from_samples(vec![
        sample(30, 21, Weekday::Tue, 70, 0),
        sample(31, 9, Weekday::Wed, 81, 0),
        sample(31, 15, Weekday::Wed, -3, 0),
        sample(31, 21, Weekday::Wed, 7, 0),
        sample(1, 9, Weekday::Thu, 100, 0),
        sample(1, 15, Weekday::Thu, 90, 0),
        sample(2, 9, Weekday::Fri, 50, 0),
    ]);
    assert_eq!(day_labels(&forecast), Ok(vec!["W 81 -3".to_string(), "T 100 90".to_string()]));
}

#[test]
fn series_of_one_day_has_no_labels() {
    let forecast = Forecast5Day::from_samples(vec![
        sample(1, 0, Weekday::Mon, 50, 0),
        sample(1, 3, Weekday::Mon, 60, 50),
    ]);
    assert_eq!(day_labels(&forecast), Ok(vec![]));
}

#[test]
fn too_short_a_series_is_refused() {
    for samples in [vec![], vec![sample(1, 0, Weekday::Mon, 50, 0)]] {
        let forecast = Forecast5Day::from_samples(samples);
        assert_eq!(draw_5day_graph(&forecast, 10, 10, &vec![]).err(), Some(RenderError::InsufficientData));
        assert_eq!(day_labels(&forecast), Err(RenderError::InsufficientData));
    }
}

#[test]
fn labelled_day_without_a_low_is_refused() {
    let forecast = Forecast5Day::from_samples(vec![
        sample(1, 18, Weekday::Mon, 50, 0),
        sample(2, 6, Weekday::Tue, 60, 0),
        sample(2, 12, Weekday::Tue, 60, 0),
        sample(3, 18, Weekday::Wed, 60, 0),
        sample(4, 6, Weekday::Thu, 60, 0),
    ]);
    assert_eq!(
        draw_5day_graph(&forecast, 10, 10, &vec![dot(0, 0), dot(0, 0)]).err(),
        Some(RenderError::MissingDayTemps { day: 2 })
    );
    assert_eq!(day_labels(&forecast), Err(RenderError::MissingDayTemps { day: 2 }));
}

#[test]
fn last_day_without_a_low_is_no_error() {
    let forecast = Forecast5Day::from_samples(vec![
        sample(1, 18, Weekday::Mon, 50, 0),
        sample(2, 6, Weekday::Tue, 60, 0),
    ]);
    assert_eq!(forecast.daily_minmax_temps(2), None);
    assert!(draw_5day_graph(&forecast, 10, 10, &vec![]).is_ok());
}

#[test]
fn wrong_number_of_labels_is_refused() {
    let forecast = three_days();
    assert_eq!(
        draw_5day_graph(&forecast, 23, 20, &vec![]).err(),
        Some(RenderError::LabelCount { expected: 1, given: 0 })
    );
    assert_eq!(
        draw_5day_graph(&forecast, 23, 20, &vec![dot(0, 0), dot(0, 0)]).err(),
        Some(RenderError::LabelCount { expected: 1, given: 2 })
    );
}

#[test]
fn hatching_lies_under_the_rain_curve_only() {
    // rain at 25 percent throughout: the curve is the row 15 of 21; equal
    // temperatures lie in the middle, on row 10, and the stroke is three
    // rows thick
    let forecast = Forecast5Day::from_samples(vec![
        sample(1, 0, Weekday::Mon, 70, 25),
        sample(1, 3, Weekday::Mon, 70, 25),
    ]);
    let graph = draw_5day_graph(&forecast, 12, 21, &vec![]).unwrap();
    for x in 0..12u32 {
        for y in 0..21u32 {
            let hatch = y % 6 < 3
                && ((x + 2 * (y / 6)) % 6 == y % 6 || (x + 2 * (y / 6)) % 6 == y % 6 + 1);
            let expected = if (9..=11).contains(&y) {
                RED
            } else if y == 15 || (y > 15 && hatch) {
                BLACK
            } else {
                WHITE
            };
            assert_eq!(graph.get_pixel(x, y), expected);
        }
    }
    // the hatching is there at all
    assert_eq!(graph.get_pixel(0, 18), BLACK);
    assert_eq!(graph.get_pixel(1, 18), BLACK);
    assert_eq!(graph.get_pixel(2, 18), WHITE);
}
