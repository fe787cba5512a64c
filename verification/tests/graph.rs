use halldisplay::{rain_row, sample_column, temp_row};

#[test]
fn temperature_rows_of_the_three_sample_series() {
    // Lowest 40 and highest 60 span the temperatures 36 to 66; on ten rows
    // 60 degrees lie at 10 - (60 - 36) / (66 - 36) * 9 - 1 = 1.8.
    assert_eq!(temp_row(60, 40, 60, 10), 1);
    assert_eq!(temp_row(50, 40, 60, 10), 4);
    assert_eq!(temp_row(40, 40, 60, 10), 7);
}

#[test]
fn temperature_row_is_kept_on_the_graph() {
    assert_eq!(temp_row(1000, 40, 60, 10), 0);
    assert_eq!(temp_row(-1000, 40, 60, 10), 9);
    assert_eq!(temp_row(36, 40, 60, 10), 9);
    assert_eq!(temp_row(66, 40, 60, 10), 0);
    assert_eq!(temp_row(i32::MAX, i32::MIN, i32::MAX, u32::MAX), 214748364);
}

#[test]
fn temperature_row_for_cold_series() {
    // 0.9 * -10 = -9 and 1.1 * -10 = -11: the span runs backwards.
    assert_eq!(temp_row(-10, -10, -10, 10), 4);
    // An empty span: the quotient counts as infinite.
    assert_eq!(temp_row(0, 0, 0, 10), 0);
    assert_eq!(temp_row(5, 0, 0, 10), 0);
    assert_eq!(temp_row(-5, 0, 0, 10), 9);
}

#[test]
fn rows_of_a_graph_without_height() {
    assert_eq!(temp_row(60, 40, 60, 0), 0);
    assert_eq!(rain_row(50, 0), 0);
    assert_eq!(temp_row(60, 40, 60, 1), 0);
    assert_eq!(rain_row(50, 1), 0);
}

#[test]
fn rain_rows() {
    assert_eq!(rain_row(0, 10), 9);
    assert_eq!(rain_row(50, 10), 5);
    assert_eq!(rain_row(100, 10), 0);
    assert_eq!(rain_row(33, 200), 199 - 65);
    assert_eq!(rain_row(150, 10), 0);
    assert_eq!(rain_row(u64::MAX, u32::MAX), 0);
}

#[test]
fn columns_span_the_full_width() {
    assert_eq!(sample_column(0, 3, 3), 0);
    assert_eq!(sample_column(1, 3, 3), 1);
    assert_eq!(sample_column(2, 3, 3), 2);
    assert_eq!(sample_column(0, 40, 700), 0);
    assert_eq!(sample_column(1, 40, 700), 17);
    assert_eq!(sample_column(2, 40, 700), 35);
    assert_eq!(sample_column(39, 40, 700), 699);
    assert_eq!(sample_column(1, 2, 1), 0);
    assert_eq!(sample_column(usize::MAX - 1, usize::MAX, u32::MAX), u32::MAX - 1);
}
