use candlestick_chart::{
    test_continuous_graph, Buffer, Candle, CandleStickChart, CandleStickChartState, CandleType,
    Grid, Interval, Numeric, YAxis,
};

#[test]
fn candle_rejects_inverted_range() {
    // high below low cannot be constructed
    assert!(Candle::new(0, 1_000_000, 900_000, 1_100_000, 1_000_000).is_none());
    // a flat candle is fine
    assert!(Candle::new(0, 1_000_000, 1_000_000, 1_000_000, 1_000_000).is_some());
    let c = Candle::new(7, 1_000_000, 2_000_000, 500_000, 1_500_000).unwrap();
    assert_eq!(c.timestamp, 7);
    assert_eq!(c.high, 2_000_000);
}

#[test]
fn candle_column_is_contiguous() {
    let axis = YAxis::new(Some(Numeric::new(9, 3)), Grid::Accurate, 5, 0, 3_000_000);
    let candle = Candle::new(0, 900_000, 3_000_000, 0, 2_100_000).unwrap();
    let (ctype, column) = candle.render(&axis);
    assert_eq!(ctype, CandleType::Bullish);
    assert_eq!(column, vec!['│', '│', '┃', '│', '│']);
    assert!(test_continuous_graph(&column));

    let bearish = Candle::new(0, 2_100_000, 3_000_000, 0, 900_000).unwrap();
    let (ctype, column) = bearish.render(&axis);
    assert_eq!(ctype, CandleType::Bearish);
    assert!(test_continuous_graph(&column));
}

#[test]
fn candle_column_checker_flags_holes() {
    assert!(test_continuous_graph(&vec!['│', '┃', '│']));
    // a void between two inked rows is a broken column
    assert!(!test_continuous_graph(&vec!['│', ' ', '│']));
    // an all-void column carries no candle at all
    assert!(!test_continuous_graph(&vec![' ', ' ']));
    // a body must not sit directly on a glyph that ends the body
    assert!(!test_continuous_graph(&vec!['┃', '╻']));
    assert!(test_continuous_graph(&vec!['╻']));
}

fn three_candle_chart() -> CandleStickChart {
    CandleStickChart::new(Interval::OneMinute).candles(vec![
        Candle::new(0, 900_000, 3_000_000, 0, 2_100_000).unwrap(),
        Candle::new(60000, 2_100_000, 4_200_000, 2_100_000, 3_900_000).unwrap(),
        Candle::new(120000, 3_900_000, 4_100_000, 2_000_000, 2_300_000).unwrap(),
    ])
}

#[test]
fn moves_do_nothing_before_first_render() {
    let mut state = CandleStickChartState::default();
    state.try_move_backward();
    assert_eq!(state.cursor_timestamp, None);
    state.try_move_forward();
    assert_eq!(state.cursor_timestamp, None);
    assert!(!state.is_needed_previous_candles());
}

#[test]
fn cursor_stays_clamped_and_reset_returns_to_live() {
    let chart = three_candle_chart();
    let mut buffer = Buffer::filled(19, 8, ' ');
    let mut state = CandleStickChartState::default();
    chart.render(&mut buffer, &mut state);
    let info = state.info.clone().unwrap();
    assert_eq!(info.cursor_first_timestamp, 0);
    assert_eq!(info.latest_timestamp, 120000);
    assert_eq!(info.cursor_last_timestamp, 120000 + 5 * 60000);

    // backward motion stops decreasing at the earliest bound
    let mut previous = i64::MAX;
    for _ in 0..12 {
        state.try_move_backward();
        let cursor = state.cursor_timestamp.unwrap();
        assert!(cursor <= previous);
        assert!(cursor >= info.cursor_first_timestamp);
        previous = cursor;
        chart.render(&mut buffer, &mut state);
        if let Some(c) = state.cursor_timestamp {
            assert!(c >= info.cursor_first_timestamp);
            assert!(c <= info.cursor_last_timestamp);
        }
    }
    assert_eq!(state.cursor_timestamp, Some(0));
    state.try_move_backward();
    assert_eq!(state.cursor_timestamp, Some(0));

    // and a reset returns to live regardless of the position
    state.reset_cursor();
    assert_eq!(state.cursor_timestamp, None);
}

#[test]
fn forward_motion_stops_at_latest_bound() {
    let chart = three_candle_chart();
    let mut buffer = Buffer::filled(19, 8, ' ');
    let mut state = CandleStickChartState::default();
    chart.render(&mut buffer, &mut state);
    let last_allowed = state.info.clone().unwrap().cursor_last_timestamp;
    for _ in 0..12 {
        state.try_move_forward();
    }
    assert_eq!(state.cursor_timestamp, Some(last_allowed));
}

#[test]
fn cursor_on_live_edge_collapses_to_live() {
    let chart = three_candle_chart();
    let mut buffer = Buffer::filled(19, 8, ' ');
    let mut state = CandleStickChartState::default();
    chart.render(&mut buffer, &mut state);
    state.try_move_backward();
    state.try_move_forward();
    // the cursor now sits exactly on the live edge...
    assert_eq!(state.cursor_timestamp, Some(120000));
    // ...and the next render snaps it back to live
    chart.render(&mut buffer, &mut state);
    assert_eq!(state.cursor_timestamp, None);
}

#[test]
fn scrolling_past_the_first_candle_requests_history() {
    let chart = three_candle_chart();
    // two body columns: the live window shows the newest two candles
    let mut buffer = Buffer::filled(15, 8, ' ');
    let mut state = CandleStickChartState::default();
    chart.render(&mut buffer, &mut state);
    assert!(!state.is_needed_previous_candles());
    state.try_move_backward();
    state.try_move_backward();
    chart.render(&mut buffer, &mut state);
    // the window now starts before the first candle
    assert!(state.is_needed_previous_candles());
}

#[test]
fn degenerate_areas_leave_the_buffer_alone() {
    let chart = three_candle_chart();
    // narrower than the reserved axis columns
    let mut buffer = Buffer::filled(12, 8, 'x');
    let mut state = CandleStickChartState::default();
    chart.render(&mut buffer, &mut state);
    for y in 0..8 {
        assert_eq!(buffer.row_string(y), "x".repeat(12));
    }
    assert_eq!(state.info, None);
    // not taller than the axis rows
    let mut buffer = Buffer::filled(19, 3, 'x');
    chart.render(&mut buffer, &mut state);
    for y in 0..3 {
        assert_eq!(buffer.row_string(y), "x".repeat(19));
    }
    assert_eq!(state.info, None);
}
