use halldisplay::{Canvas, Color};

const WHITE: Color = Color { r: 255, g: 255, b: 255 };
const BLACK: Color = Color { r: 0, g: 0, b: 0 };
const RED: Color = Color { r: 255, g: 0, b: 0 };

#[test]
fn new_canvas_is_all_white() {
    let c = Canvas::new(7, 3);
    assert_eq!(c.width(), 7);
    assert_eq!(c.height(), 3);
    for y in 0..3 {
        for x in 0..7 {
            assert_eq!(c.get_pixel(x, y), WHITE);
        }
    }
}

#[test]
fn put_pixel_changes_one_pixel() {
    let mut c = Canvas::new(4, 4);
    c.put_pixel(2, 1, RED);
    for y in 0..4 {
        for x in 0..4 {
            let expected = if (x, y) == (2, 1) { RED } else { WHITE };
            assert_eq!(c.get_pixel(x, y), expected);
        }
    }
}

#[test]
fn draw_pixel_outside_the_canvas_does_nothing() {
    let mut c = Canvas::new(2, 2);
    c.draw_pixel(-1, 0, BLACK);
    c.draw_pixel(0, -1, BLACK);
    c.draw_pixel(2, 0, BLACK);
    c.draw_pixel(0, 2, BLACK);
    c.draw_pixel(i64::MAX, i64::MIN, BLACK);
    for y in 0..2 {
        for x in 0..2 {
            assert_eq!(c.get_pixel(x, y), WHITE);
        }
    }
    c.draw_pixel(1, 1, BLACK);
    assert_eq!(c.get_pixel(1, 1), BLACK);
}

#[test]
fn draw_column_fills_the_column() {
    let mut c = Canvas::new(3, 4);
    c.draw_column(1, BLACK);
    c.draw_column(3, BLACK);
    c.draw_column(-1, BLACK);
    for y in 0..4 {
        assert_eq!(c.get_pixel(0, y), WHITE);
        assert_eq!(c.get_pixel(1, y), BLACK);
        assert_eq!(c.get_pixel(2, y), WHITE);
    }
}

#[test]
fn draw_points_skips_what_is_outside() {
    let mut c = Canvas::new(3, 3);
    c.draw_points(&vec![(0, 0), (5, 5), (2, 1), (-1, 2)], RED);
    let mut reds = Vec::new();
    for y in 0..3 {
        for x in 0..3 {
            if c.get_pixel(x, y) == RED {
                reds.push((x, y));
            }
        }
    }
    assert_eq!(reds, vec![(0, 0), (2, 1)]);
}

#[test]
fn overlay_copies_without_blending() {
    let mut bottom = Canvas::new(5, 4);
    bottom.put_pixel(1, 1, BLACK);
    let mut top = Canvas::new(2, 2);
    top.put_pixel(0, 0, RED);
    top.put_pixel(1, 1, BLACK);
    bottom.overlay(&top, 1, 1);
    assert_eq!(bottom.get_pixel(1, 1), RED);
    assert_eq!(bottom.get_pixel(2, 1), WHITE);
    assert_eq!(bottom.get_pixel(1, 2), WHITE);
    assert_eq!(bottom.get_pixel(2, 2), BLACK);
    assert_eq!(bottom.get_pixel(0, 0), WHITE);
    assert_eq!(bottom.get_pixel(3, 3), WHITE);
}

#[test]
fn overlay_is_clipped_to_the_canvas() {
    let mut top = Canvas::new(2, 2);
    top.put_pixel(0, 0, RED);
    top.put_pixel(1, 1, BLACK);

    let mut a = Canvas::new(3, 3);
    a.overlay(&top, 2, 2);
    assert_eq!(a.get_pixel(2, 2), RED);
    assert_eq!(a.get_pixel(1, 1), WHITE);

    let mut b = Canvas::new(3, 3);
    b.overlay(&top, -1, -1);
    assert_eq!(b.get_pixel(0, 0), BLACK);
    assert_eq!(b.get_pixel(1, 1), WHITE);

    let mut c = Canvas::new(3, 3);
    c.put_pixel(0, 0, BLACK);
    c.overlay(&top, 3, 0);
    c.overlay(&top, 0, 3);
    c.overlay(&top, -2, 0);
    c.overlay(&top, i64::MAX, i64::MIN);
    assert_eq!(c.get_pixel(0, 0), BLACK);
    for y in 0..3 {
        for x in 0..3 {
            if (x, y) != (0, 0) {
                assert_eq!(c.get_pixel(x, y), WHITE);
            }
        }
    }
}

#[test]
fn quantize_maps_every_pixel_into_the_palette() {
    let mut c = Canvas::new(4, 2);
    c.put_pixel(0, 0, Color { r: 254, g: 10, b: 10 });
    c.put_pixel(1, 0, Color { r: 128, g: 128, b: 128 });
    c.put_pixel(2, 0, Color { r: 250, g: 250, b: 250 });
    c.put_pixel(3, 0, Color { r: 255, g: 215, b: 0 });
    c.put_pixel(0, 1, Color { r: 0, g: 0, b: 1 });
    c.quantize();
    assert_eq!(c.get_pixel(0, 0), RED);
    assert_eq!(c.get_pixel(1, 0), BLACK);
    assert_eq!(c.get_pixel(2, 0), WHITE);
    assert_eq!(c.get_pixel(3, 0), BLACK);
    assert_eq!(c.get_pixel(0, 1), BLACK);
    assert_eq!(c.get_pixel(1, 1), WHITE);
    for y in 0..2 {
        for x in 0..4 {
            assert!([WHITE, BLACK, RED].contains(&c.get_pixel(x, y)));
        }
    }
}

#[test]
fn quantize_twice_is_quantize_once() {
    let mut once = Canvas::new(16, 16);
    let mut twice = Canvas::new(16, 16);
    for y in 0..16u32 {
        for x in 0..16u32 {
            let p = Color { r: (x * 17) as u8, g: (y * 17) as u8, b: ((x * y) % 256) as u8 };
            once.put_pixel(x, y, p);
            twice.put_pixel(x, y, p);
        }
    }
    once.quantize();
    twice.quantize();
    twice.quantize();
    for y in 0..16 {
        for x in 0..16 {
            assert_eq!(once.get_pixel(x, y), twice.get_pixel(x, y));
        }
    }
}
