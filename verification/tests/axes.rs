use candlestick_chart::{overwrite_chars, Grid, Interval, Numeric, XAxis, YAxis};

#[test]
fn test_overwrite_chars() {
    let mut str: Vec<char> = "x".repeat(10).chars().collect();
    overwrite_chars(&mut str, 2, String::from("yy"), true);
    assert_eq!(String::from_iter(str), String::from("xxyyxxxxxx"));

    let mut str: Vec<char> = "x".repeat(10).chars().collect();
    overwrite_chars(&mut str, 8, String::from("zzzzz"), true);
    assert_eq!(String::from_iter(str), String::from("xxxxxzzzzz"));

    let mut str: Vec<char> = "x".repeat(10).chars().collect();
    overwrite_chars(&mut str, -2, String::from("zzzzz"), true);
    assert_eq!(String::from_iter(str), String::from("zzzzzxxxxx"));
}

#[test]
fn overwrite_chars_respects_earlier_text() {
    let mut row: Vec<char> = " ".repeat(10).chars().collect();
    assert!(overwrite_chars(&mut row, 4, String::from("ab"), false));
    assert_eq!(String::from_iter(row.clone()), String::from("    ab    "));
    // an overlapping write without priority is rejected
    assert!(!overwrite_chars(&mut row, 3, String::from("cd"), false));
    assert_eq!(String::from_iter(row.clone()), String::from("    ab    "));
    // a value wider than the row is rejected
    assert!(!overwrite_chars(&mut row, 0, String::from("0123456789ab"), false));
    assert_eq!(String::from_iter(row), String::from("    ab    "));
}

#[test]
fn render() {
    let axis = XAxis::new(60, 1704006060000, 1704009600000, Interval::OneMinute, false);
    assert_eq!(
        axis.render(0),
        vec![
            "──────────────┴──────────────┴──────────────┴──────────────┴",
            "            07:15          07:30          07:45        08:00"
        ]
    );
}

#[test]
fn render_bigger_than_width() {
    let axis = XAxis::new(30, 1704006060000, 1704009600000, Interval::OneMinute, true);
    assert_eq!(
        axis.render(0),
        vec![
            "──────────────┴──────────────┴",
            "            07:45       *08:00"
        ]
    );
}

#[test]
fn render_with_display_offset() {
    // one hour east shifts the shown clock by one hour
    let axis = XAxis::new(30, 1704006060000, 1704009600000, Interval::OneMinute, false);
    assert_eq!(
        axis.render(3600),
        vec![
            "──────────────┴──────────────┴",
            "            07:45        09:00"
        ]
    );
}

#[test]
fn test_format() {
    let numeric = Numeric::new(10, 2);
    assert_eq!(numeric.format(3_123_456), "      3.12");
    assert_eq!(numeric.format(99_991_000_000), "  99991.00");
}

#[test]
fn format_negative_and_rounding() {
    let numeric = Numeric::new(8, 3);
    assert_eq!(numeric.format(-1_234_500), "  -1.235");
    assert_eq!(numeric.format(0), "   0.000");
    let wide = Numeric::new(4, 0);
    assert_eq!(wide.format(2_600_000), "   3");
}

#[test]
fn y_axis_test_calc() {
    let y_axis = YAxis::new(None, Grid::default(), 40, 100_000_000, 200_000_000);
    let pos = y_axis.calc_y(130_000_000);
    assert!(pos.den > 0);
    assert_eq!(pos.num, 12 * pos.den);
}

#[test]
fn y_axis_endpoints() {
    let y_axis = YAxis::new(None, Grid::default(), 25, -5_000_000, 20_000_000);
    let bottom = y_axis.calc_y(-5_000_000);
    let top = y_axis.calc_y(20_000_000);
    assert_eq!(bottom.num, 0);
    assert_eq!(top.num, 25 * top.den);
}

#[test]
fn auto_numeric_from_range() {
    // a range of 4.2 units has two significant digits; a maximum of
    // 4.2 needs one integer digit
    let n = Numeric::auto_from_min_max(0, 4_200_000);
    assert_eq!(n.scale, 2);
    assert_eq!(n.precision, 3);
    // a sub-one maximum pays for its leading zeros
    let n = Numeric::auto_from_min_max(0, 50_000);
    assert_eq!(n.scale, 1);
    assert_eq!(n.precision, 5);
}

#[test]
fn estimated_width_reserves_label_and_decoration() {
    let w = YAxis::estimated_width(Some(Numeric::new(9, 3)), 0, 3_000_000);
    assert_eq!(w, 13);
    let w = YAxis::estimated_width(Some(Numeric::new(4, 1)), -10_000_000, 3_000_000);
    // "-10.0" is wider than the four-column field
    assert_eq!(w, 9);
}

#[test]
fn readable_grid_snaps_to_round_values() {
    let y_axis = YAxis::new(Some(Numeric::new(7, 2)), Grid::Readable, 8, 0, 8_000_000);
    let rows = y_axis.render();
    assert_eq!(rows.len(), 8);
    // unit = 1; marks every 5 units: 5 sits on the boundary of two
    // bands and 0 at the bottom
    assert_eq!(rows[2], "    5.00 ├ ");
    assert_eq!(rows[3], "    5.00 ├ ");
    assert_eq!(rows[7], "    0.00 ├ ");
    for (i, row) in rows.iter().enumerate() {
        if i != 2 && i != 3 && i != 7 {
            assert_eq!(row, "         │ ");
        }
    }
}

#[test]
fn accurate_grid_labels_every_fourth_row() {
    let y_axis = YAxis::new(Some(Numeric::new(7, 2)), Grid::Accurate, 6, 0, 6_000_000);
    let rows = y_axis.render();
    assert_eq!(rows.len(), 6);
    assert_eq!(rows[0], "    6.00 ├ ");
    assert_eq!(rows[4], "    2.00 ├ ");
    assert_eq!(rows[1], "         │ ");
}

#[test]
fn day_interval_uses_date_labels() {
    // seven days ending 2024-01-07; day precision shows month/day
    let day = 86_400_000i64;
    let base = 1_704_067_200_000i64; // 2024-01-01 00:00:00 UTC
    let axis = XAxis::new(40, base, base + 6 * day, Interval::OneDay, false);
    let rows = axis.render(0);
    // seven instants fill the leftmost columns; the newest is labelled
    assert_eq!(rows[1], "    01/07                               ");
}

#[test]
fn year_change_widens_interior_label() {
    // a minute series crossing midnight of New Year's Eve
    let start = 1_703_980_800_000i64; // 2023-12-31 00:00:00 UTC
    let axis = XAxis::new(40, start, start + 39 * 60_000, Interval::OneMinute, false);
    let rows = axis.render(0);
    // interior quarter-hour labels show the clock, in UTC
    assert!(rows[1].contains("00:15"));
    assert!(rows[1].contains("00:30"));
}
