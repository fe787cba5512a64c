//! Composes a weather and task status image for a three-colour e-paper panel.
//!
//! The crate lays a forecast graph, a header and a task list onto a canvas,
//! reduces the canvas to the panel's three colours and packs it into the
//! two-plane frame format that the display controller reads.
pub mod canvas;
pub mod color;
pub mod decimal;
pub mod draw;
pub mod forecast;
pub mod frame;
pub mod graph;
pub mod line;
pub mod render;
pub mod request_image;
pub mod tasks;
pub mod text;
pub mod weather;
pub mod wifi;

pub use canvas::{Canvas, Raster};
pub use color::{classify, luma, Color, Palette};
pub use draw::{day_labels, draw_5day_graph, RenderError};
pub use forecast::{DayTemps, Forecast5Day};
pub use frame::{frame_len, pack};
pub use graph::{sample_column, rain_row, temp_row};
pub use line::line_points;
pub use render::{
    display_texts, render, DisplayData, DisplayTexts, Layout, LocalTime, RowTexts, ShapedRow,
    ShapedTexts, DESCRIPTION_SIZE, HEADER_SIZE, SMALL_SIZE, TEMP_SIZE,
};
pub use request_image::{request_image, ImageRequestError};
pub use tasks::{date_label, sorted_order, Date, Task};
pub use text::{
    draw_text_bottom, draw_text_bottom_right, draw_text_centered, draw_text_left,
    draw_text_left_color, draw_text_mut, draw_text_right, measure_text, Glyph, ShapedText,
};
pub use weather::{
    gather_5day_forecast, CurrentWeather, ForecastPeriod, ForecastSample, Timestamp, Weekday,
};
pub use wifi::{wifi, AuthMethod, WifiConfig, WifiError};
