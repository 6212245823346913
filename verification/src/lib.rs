//! Candlestick-chart rendering engine for character-cell terminals.
//!
//! The crate turns an ordered series of OHLC candles into a grid of
//! colored box-drawing characters: a value axis on the left, a time axis
//! at the bottom, and one glyph column per visible candle in between.
//! Prices are fixed-point integers (micro-units), so every layout and
//! glyph decision is exact integer arithmetic.

mod buffer;
mod calendar;
mod candle;
mod candlestick_chart;
mod candlestick_chart_state;
mod symbols;
mod utils;
mod x_axis;
mod y_axis;

pub use buffer::{Buffer, Cell, Color};
pub use candle::{Candle, CandleType, test_continuous_graph};
pub use candlestick_chart::CandleStickChart;
pub use candlestick_chart_state::{CandleStickChartState, CandleStikcChartInfo, MAX_BOUND_TIMESTAMP_MS, MAX_TIMESTAMP_MS};
pub use x_axis::{Interval, XAxis, overwrite_chars};
pub use y_axis::{Grid, Numeric, RowPos, YAxis};
