use candlestick_chart::{Buffer, Candle, CandleStickChart, CandleStickChartState, Interval};

fn render(widget: &CandleStickChart, width: u16, height: u16) -> Buffer {
    let mut buffer = Buffer::filled(width, height, 'x');
    let mut state = CandleStickChartState::default();
    widget.render(&mut buffer, &mut state);
    buffer
}

fn assert_buffer_lines(buffer: &Buffer, lines: &[&str]) {
    assert_eq!(buffer.height() as usize, lines.len());
    for (y, line) in lines.iter().enumerate() {
        assert_eq!(buffer.row_string(y as u16), *line, "row {}", y);
    }
}

#[test]
fn empty_candle() {
    let widget = CandleStickChart::new(Interval::OneMinute).candles(vec![]);
    let buffer = render(&widget, 14, 8);
    assert_buffer_lines(
        &buffer,
        &[
            "xxxxxxxxxxxxxx",
            "xxxxxxxxxxxxxx",
            "xxxxxxxxxxxxxx",
            "xxxxxxxxxxxxxx",
            "xxxxxxxxxxxxxx",
            "xxxxxxxxxxxxxx",
            "xxxxxxxxxxxxxx",
            "xxxxxxxxxxxxxx",
        ],
    );
}

#[test]
fn simple_candle() {
    let widget = CandleStickChart::new(Interval::OneMinute)
        .candles(vec![Candle::new(0, 900_000, 3_000_000, 0, 2_100_000).unwrap()]);
    let buffer = render(&widget, 14, 8);
    assert_buffer_lines(
        &buffer,
        &[
            "     3.000 ├ │",
            "           │ │",
            "           │ ┃",
            "           │ │",
            "     0.600 ├ │",
            "xxxxxxxxxxx└──",
            "xxxxxxxxxxxxx ",
            "xxxxxxxxxxxxxx",
        ],
    );
}

#[test]
fn simple_candle_with_x_label() {
    let widget = CandleStickChart::new(Interval::OneMinute)
        .candles(vec![Candle::new(0, 900_000, 3_000_000, 0, 2_100_000).unwrap()]);
    let buffer = render(&widget, 30, 8);
    assert_buffer_lines(
        &buffer,
        &[
            "     3.000 ├ xxxxxxxxxxxxxxxx│",
            "           │ xxxxxxxxxxxxxxxx│",
            "           │ xxxxxxxxxxxxxxxx┃",
            "           │ xxxxxxxxxxxxxxxx│",
            "     0.600 ├ xxxxxxxxxxxxxxxx│",
            "xxxxxxxxxxx└─────────────────┴",
            "xxxxxxxxxxxxx*1970/01/01 00:00",
            "xxxxxxxxxxxxxxxxxxxxxxxxxxxxxx",
        ],
    );
}

#[test]
fn simple_candles_with_x_label() {
    let widget = CandleStickChart::new(Interval::OneMinute).candles(vec![
        Candle::new(0, 900_000, 3_000_000, 0, 2_100_000).unwrap(),
        Candle::new(60000, 2_100_000, 4_200_000, 2_100_000, 3_900_000).unwrap(),
        Candle::new(120000, 3_900_000, 4_100_000, 2_000_000, 2_300_000).unwrap(),
    ]);
    let buffer = render(&widget, 19, 8);
    assert_buffer_lines(
        &buffer,
        &[
            "     4.200 ├ xxx ╽┃",
            "           │ xxx│┃┃",
            "           │ xxx│╹╿",
            "           │ xxx│  ",
            "     0.840 ├ xxx│  ",
            "xxxxxxxxxxx└──────┴",
            "xxxxxxxxxxxxx*00:02",
            "xxxxxxxxxxxxxxxxxxx",
        ],
    );
}

#[test]
fn simple_full_candles_with_x_label() {
    let widget = CandleStickChart::new(Interval::OneMinute).candles(vec![
        Candle::new(0, 900_000, 3_000_000, 0, 2_100_000).unwrap(),
        Candle::new(60000, 2_100_000, 4_200_000, 2_100_000, 3_900_000).unwrap(),
        Candle::new(120000, 3_900_000, 4_100_000, 2_000_000, 2_300_000).unwrap(),
        Candle::new(180000, 2_300_000, 3_900_000, 1_300_000, 2_000_000).unwrap(),
        Candle::new(240000, 2_000_000, 5_200_000, 900_000, 3_900_000).unwrap(),
    ]);
    let buffer = render(&widget, 19, 8);
    assert_buffer_lines(
        &buffer,
        &[
            "     5.200 ├ x ╷  │",
            "           │ x ╽┃││",
            "           │ x│┃╿│┃",
            "           │ x┃ ╵││",
            "     1.040 ├ x│   ╵",
            "xxxxxxxxxxx└──────┴",
            "xxxxxxxxxxxxx*00:04",
            "xxxxxxxxxxxxxxxxxxx",
        ],
    );
}

#[test]
fn simple_omitted_candles_with_x_label() {
    let widget = CandleStickChart::new(Interval::OneMinute).candles(vec![
        Candle::new(0, 900_000, 3_000_000, 0, 2_100_000).unwrap(),
        Candle::new(240000, 2_000_000, 5_200_000, 900_000, 3_900_000).unwrap(),
    ]);
    let buffer = render(&widget, 19, 8);
    assert_buffer_lines(
        &buffer,
        &[
            "     5.200 ├ x xxx│",
            "           │ x xxx│",
            "           │ x│xxx┃",
            "           │ x┃xxx│",
            "     1.040 ├ x│xxx╵",
            "xxxxxxxxxxx└──────┴",
            "xxxxxxxxxxxxx*00:04",
            "xxxxxxxxxxxxxxxxxxx",
        ],
    );
}

#[test]
fn simple_candle_with_not_changing() {
    let widget = CandleStickChart::new(Interval::OneSecond).candles(vec![
        Candle::new(0, 0, 1_000_000_000, 0, 50_000_000).unwrap(),
        Candle::new(1000, 50_000_000, 50_000_000, 50_000_000, 50_000_000).unwrap(),
        Candle::new(2000, 500_000_000, 500_000_000, 500_000_000, 500_000_000).unwrap(),
    ]);
    let buffer = render(&widget, 16, 8);
    assert_buffer_lines(
        &buffer,
        &[
            "  1000.000 ├ │  ",
            "           │ │  ",
            "           │ │ ╻",
            "           │ │  ",
            "   200.000 ├ │╻ ",
            "xxxxxxxxxxx└────",
            "xxxxxxxxxxxxx   ",
            "xxxxxxxxxxxxxxxx",
        ],
    );
}

#[test]
fn simple_candle_with_small_candle() {
    let widget = CandleStickChart::new(Interval::OneSecond).candles(vec![
        Candle::new(0, 0, 1_000_000_000, 0, 50_000_000).unwrap(),
        Candle::new(1000, 450_000_000, 580_000_000, 320_000_000, 450_000_000).unwrap(),
        Candle::new(2000, 580_000_000, 580_000_000, 320_000_000, 320_000_000).unwrap(),
    ]);
    let buffer = render(&widget, 16, 8);
    assert_buffer_lines(
        &buffer,
        &[
            "  1000.000 ├ │  ",
            "           │ │  ",
            "           │ │╽┃",
            "           │ │╵╹",
            "   200.000 ├ │  ",
            "xxxxxxxxxxx└────",
            "xxxxxxxxxxxxx   ",
            "xxxxxxxxxxxxxxxx",
        ],
    );
}

#[test]
fn render_twice_is_idempotent() {
    let widget = CandleStickChart::new(Interval::OneMinute).candles(vec![
        Candle::new(0, 900_000, 3_000_000, 0, 2_100_000).unwrap(),
        Candle::new(60000, 2_100_000, 4_200_000, 2_100_000, 3_900_000).unwrap(),
        Candle::new(120000, 3_900_000, 4_100_000, 2_000_000, 2_300_000).unwrap(),
    ]);
    let mut buffer = Buffer::filled(19, 8, 'x');
    let mut state = CandleStickChartState::default();
    widget.render(&mut buffer, &mut state);
    let first_rows: Vec<String> = (0..8).map(|y| buffer.row_string(y)).collect();
    let first_state = state.clone();
    widget.render(&mut buffer, &mut state);
    let second_rows: Vec<String> = (0..8).map(|y| buffer.row_string(y)).collect();
    assert_eq!(first_rows, second_rows);
    assert_eq!(first_state, state);
}

#[test]
fn scrolled_render_marks_no_live_edge() {
    let widget = CandleStickChart::new(Interval::OneMinute).candles(vec![
        Candle::new(0, 900_000, 3_000_000, 0, 2_100_000).unwrap(),
        Candle::new(60000, 2_100_000, 4_200_000, 2_100_000, 3_900_000).unwrap(),
        Candle::new(120000, 3_900_000, 4_100_000, 2_000_000, 2_300_000).unwrap(),
    ]);
    let mut buffer = Buffer::filled(19, 8, 'x');
    let mut state = CandleStickChartState::default();
    widget.render(&mut buffer, &mut state);
    state.try_move_backward();
    assert_eq!(state.cursor_timestamp, Some(60000));
    let mut buffer2 = Buffer::filled(19, 8, 'x');
    widget.render(&mut buffer2, &mut state);
    // the label of the scrolled window carries no live marker
    assert_eq!(buffer2.row_string(6), "xxxxxxxxxxxxx 00:01");
}
