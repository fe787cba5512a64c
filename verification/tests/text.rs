use halldisplay::{
    draw_text_bottom, draw_text_bottom_right, draw_text_centered, draw_text_left,
    draw_text_left_color, draw_text_mut, draw_text_right, measure_text, Canvas, Color, Glyph,
    ShapedText,
};

const WHITE: Color = Color { r: 255, g: 255, b: 255 };
const BLACK: Color = Color { r: 0, g: 0, b: 0 };
const RED: Color = Color { r: 255, g: 0, b: 0 };

fn block(left: i32, top: i32, width: u32, height: u32) -> Glyph {
    Glyph { left, top, width, height, coverage: vec![255; (width * height) as usize] }
}

fn inked(c: &Canvas, color: Color) -> Vec<(u32, u32)> {
    let mut out = Vec::new();
    for y in 0..c.height() {
        for x in 0..c.width() {
            if c.get_pixel(x, y) == color {
                out.push((x, y));
            }
        }
    }
    out
}

#[test]
fn measure_runs_from_first_left_edge_to_last_right_edge() {
    let text = ShapedText { glyphs: vec![block(1, 0, 3, 4), block(6, 2, 2, 2), block(10, 0, 5, 1)], line_height: 12 };
    assert_eq!(measure_text(&text), (14, 12));
    let one = ShapedText { glyphs: vec![block(-2, 0, 3, 4)], line_height: 7 };
    assert_eq!(measure_text(&one), (3, 7));
}

#[test]
fn measure_of_a_text_without_glyphs() {
    let text = ShapedText { glyphs: vec![], line_height: 9 };
    assert_eq!(measure_text(&text), (0, 9));
}

#[test]
fn coverage_over_a_tenth_is_drawn_solid() {
    let glyph = Glyph { left: 0, top: 0, width: 4, height: 1, coverage: vec![0, 25, 26, 255] };
    let text = ShapedText { glyphs: vec![glyph], line_height: 1 };
    let mut c = Canvas::new(4, 1);
    draw_text_mut(&mut c, RED, 0, 0, &text);
    assert_eq!(c.get_pixel(0, 0), WHITE);
    assert_eq!(c.get_pixel(1, 0), WHITE);
    assert_eq!(c.get_pixel(2, 0), RED);
    assert_eq!(c.get_pixel(3, 0), RED);
}

#[test]
fn glyph_is_placed_by_origin_and_box() {
    let glyph = Glyph { left: 1, top: 2, width: 2, height: 2, coverage: vec![255, 0, 0, 255] };
    let text = ShapedText { glyphs: vec![glyph], line_height: 4 };
    let mut c = Canvas::new(8, 8);
    draw_text_mut(&mut c, BLACK, 3, 1, &text);
    assert_eq!(inked(&c, BLACK), vec![(4, 3), (5, 4)]);
}

#[test]
fn text_outside_the_canvas_is_dropped() {
    let text = ShapedText { glyphs: vec![block(0, 0, 3, 3)], line_height: 3 };
    let mut c = Canvas::new(4, 4);
    draw_text_mut(&mut c, BLACK, -2, 3, &text);
    assert_eq!(inked(&c, BLACK), vec![(0, 3)]);
    let mut d = Canvas::new(4, 4);
    draw_text_mut(&mut d, BLACK, i64::MAX, i64::MIN, &text);
    draw_text_mut(&mut d, BLACK, 4, 0, &text);
    assert_eq!(inked(&d, BLACK), vec![]);
}

#[test]
fn short_coverage_list_leaves_the_rest_blank() {
    let glyph = Glyph { left: 0, top: 0, width: 2, height: 2, coverage: vec![255, 255, 255] };
    let text = ShapedText { glyphs: vec![glyph], line_height: 2 };
    let mut c = Canvas::new(2, 2);
    draw_text_mut(&mut c, BLACK, 0, 0, &text);
    assert_eq!(inked(&c, BLACK), vec![(0, 0), (1, 0), (0, 1)]);
}

#[test]
fn placements() {
    // 4 wide (from 1 to 5), line height 3
    let text = ShapedText { glyphs: vec![block(1, 0, 1, 1), block(4, 0, 1, 1)], line_height: 3 };

    let mut left = Canvas::new(12, 12);
    draw_text_left(&mut left, &text, 2, 5);
    assert_eq!(inked(&left, BLACK), vec![(3, 5), (6, 5)]);

    let mut colored = Canvas::new(12, 12);
    draw_text_left_color(&mut colored, &text, 2, 5, RED);
    assert_eq!(inked(&colored, RED), vec![(3, 5), (6, 5)]);

    let mut right = Canvas::new(12, 12);
    draw_text_right(&mut right, &text, 10, 5, RED);
    assert_eq!(inked(&right, RED), vec![(7, 5), (10, 5)]);

    let mut bottom = Canvas::new(12, 12);
    draw_text_bottom(&mut bottom, &text, 2, 5, RED);
    assert_eq!(inked(&bottom, RED), vec![(3, 2), (6, 2)]);

    let mut corner = Canvas::new(12, 12);
    draw_text_bottom_right(&mut corner, &text, 10, 5, BLACK);
    assert_eq!(inked(&corner, BLACK), vec![(7, 2), (10, 2)]);

    // centred on (6, 6): the origin is at 6 - 4 / 2 = 4 and 6 - floor(3 / 2) = 5
    let mut centered = Canvas::new(12, 12);
    draw_text_centered(&mut centered, &text, 6, 6);
    assert_eq!(inked(&centered, BLACK), vec![(5, 5), (8, 5)]);
}
