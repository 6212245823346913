//! The chart compositor: lays out value axis, time axis and candle
//! columns in one render pass over a cell buffer.
//!
//! A pass is a pure function of the chart, the buffer size and the
//! viewport state: it stores the new window bounds in the state
//! (clamping the cursor) and then paints the frame.  Degenerate areas
//! and windows showing no data paint nothing.

use vstd::prelude::*;

use crate::buffer::{Buffer, Cell, Color};
use crate::candle::{spec_candle_column, Candle, CandleType};
use crate::candlestick_chart_state::{CandleStickChartState, CandleStikcChartInfo};
use crate::utils::string_to_chars;
use crate::x_axis::{Interval, XAxis, MAX_AXIS_TIMESTAMP_MS};
use crate::y_axis::{Grid, Numeric, YAxis};

verus! {

/// The candlestick chart: the series, its interval, and the colors
/// and timezone used when painting.
#[derive(Debug, Clone)]
pub struct CandleStickChart {
    pub interval: Interval,
    pub candles: Vec<Candle>,
    pub bearish_color: Color,
    pub bullish_color: Color,
    pub display_timezone_secs: i32,
}

/// What the compositor requires of a series: valid candles, strictly
/// ascending timestamps, and timestamps on the interval grid.
pub open spec fn spec_series_wf(s: Seq<Candle>, interval: Interval) -> bool {
    &&& forall|i: int| 0 <= i < s.len() ==> (#[trigger] s[i]).wf()
    &&& forall|i: int, j: int|
        0 <= i < j < s.len() ==> (#[trigger] s[i]).timestamp < (#[trigger] s[j]).timestamp
    &&& forall|i: int|
        0 <= i < s.len() ==> (#[trigger] s[i]).timestamp as int % interval.spec_step_ms() == 0
}

/// The lowest low of the series.
pub open spec fn spec_gmin(s: Seq<Candle>) -> int
    decreases s.len(),
{
    if s.len() <= 1 {
        if s.len() == 0 {
            0
        } else {
            s[0].low as int
        }
    } else {
        let m = spec_gmin(s.drop_last());
        if (s.last().low as int) < m {
            s.last().low as int
        } else {
            m
        }
    }
}

/// The highest high of the series.
pub open spec fn spec_gmax(s: Seq<Candle>) -> int
    decreases s.len(),
{
    if s.len() <= 1 {
        if s.len() == 0 {
            0
        } else {
            s[0].high as int
        }
    } else {
        let m = spec_gmax(s.drop_last());
        if (s.last().high as int) > m {
            s.last().high as int
        } else {
            m
        }
    }
}

/// The lowest low among candles whose timestamp lies in `[lo, hi]`,
/// if any does.
pub open spec fn spec_win_min(s: Seq<Candle>, lo: int, hi: int) -> Option<int>
    decreases s.len(),
{
    if s.len() == 0 {
        None
    } else {
        let rest = spec_win_min(s.drop_last(), lo, hi);
        if lo <= s.last().timestamp <= hi {
            match rest {
                None => Some(s.last().low as int),
                Some(m) => if (s.last().low as int) < m {
                    Some(s.last().low as int)
                } else {
                    Some(m)
                },
            }
        } else {
            rest
        }
    }
}

/// The highest high among candles whose timestamp lies in `[lo, hi]`,
/// if any does.
pub open spec fn spec_win_max(s: Seq<Candle>, lo: int, hi: int) -> Option<int>
    decreases s.len(),
{
    if s.len() == 0 {
        None
    } else {
        let rest = spec_win_max(s.drop_last(), lo, hi);
        if lo <= s.last().timestamp <= hi {
            match rest {
                None => Some(s.last().high as int),
                Some(m) => if (s.last().high as int) > m {
                    Some(s.last().high as int)
                } else {
                    Some(m)
                },
            }
        } else {
            rest
        }
    }
}

/// The timestamp of the first candle at or after `t`, searching from
/// index `i`.
pub open spec fn spec_first_real_ge(s: Seq<Candle>, i: int, t: int) -> Option<int>
    decreases s.len() - i,
{
    if i < 0 || i >= s.len() {
        None
    } else if s[i].timestamp >= t {
        Some(s[i].timestamp as int)
    } else {
        spec_first_real_ge(s, i + 1, t)
    }
}

/// The timestamp of the last candle at or before `t`, searching down
/// from index `i`.
pub open spec fn spec_last_real_le(s: Seq<Candle>, i: int, t: int) -> Option<int>
    decreases i + 1,
{
    if i < 0 || i >= s.len() {
        None
    } else if s[i].timestamp <= t {
        Some(s[i].timestamp as int)
    } else {
        spec_last_real_le(s, i - 1, t)
    }
}

/// The index among the first `k` candles of the one drawn in screen
/// column `col` of the body area, newest first: the candle must lie
/// in the visible window and its slot distance from the first
/// visible slot must be `col`.  Timestamps are distinct, so at most
/// one candle qualifies.
pub open spec fn spec_body_find(
    s: Seq<Candle>,
    k: int,
    col: int,
    start: int,
    end: int,
    t0: int,
    step: int,
) -> Option<int>
    decreases k,
{
    if k <= 0 || k > s.len() {
        None
    } else if start <= s[k - 1].timestamp <= end && (s[k - 1].timestamp - t0) / step == col {
        Some(k - 1)
    } else {
        spec_body_find(s, k - 1, col, start, end, t0, step)
    }
}

impl CandleStickChart {
    /// A chart with no data, a reddish bearish and greenish bullish
    /// color, and labels shown in UTC.
    pub fn new(interval: Interval) -> (r: Self)
        ensures
            r.interval == interval,
            r.candles@.len() == 0,
            r.bearish_color == (Color { r: 234, g: 74, b: 90 }),
            r.bullish_color == (Color { r: 52, g: 208, b: 88 }),
            r.display_timezone_secs == 0,
    {
        CandleStickChart {
            interval,
            candles: Vec::new(),
            bearish_color: Color { r: 234, g: 74, b: 90 },
            bullish_color: Color { r: 52, g: 208, b: 88 },
            display_timezone_secs: 0,
        }
    }

    /// Replaces the series.
    pub fn candles(self, candles: Vec<Candle>) -> (r: Self)
        ensures
            r == (CandleStickChart { candles, ..self }),
    {
        CandleStickChart { candles, ..self }
    }

    /// Sets the color of falling candles.
    pub fn bearish_color(self, color: Color) -> (r: Self)
        ensures
            r == (CandleStickChart { bearish_color: color, ..self }),
    {
        CandleStickChart { bearish_color: color, ..self }
    }

    /// Sets the color of rising candles.
    pub fn bullish_color(self, color: Color) -> (r: Self)
        ensures
            r == (CandleStickChart { bullish_color: color, ..self }),
    {
        CandleStickChart { bullish_color: color, ..self }
    }

    /// Sets the offset (seconds east of UTC) in which the newest
    /// label's clock is shown.
    pub fn display_timezone(self, offset_secs: i32) -> (r: Self)
        ensures
            r == (CandleStickChart { display_timezone_secs: offset_secs, ..self }),
    {
        CandleStickChart { display_timezone_secs: offset_secs, ..self }
    }

    /// Columns reserved for the value axis.
    pub open spec fn spec_ya_width(self) -> int {
        YAxis::spec_estimated_width(
            Some(Numeric { precision: 9, scale: 3 }),
            spec_gmin(self.candles@) as i64,
            spec_gmax(self.candles@) as i64,
        ) as int
    }

    /// Whether a pass over a `w x h` buffer draws at all.
    pub open spec fn spec_active(self, w: int, h: int) -> bool {
        &&& self.candles@.len() > 0
        &&& w > self.spec_ya_width()
        &&& h > 3
    }

    /// The cursor after re-clamping against the new window bounds.
    pub open spec fn spec_cursor1(self, s0: CandleStickChartState, w: int) -> Option<i64> {
        let cw = w - self.spec_ya_width();
        let first = self.candles@[0].timestamp as int;
        let last = self.candles@.last().timestamp as int;
        let last_dummy = last + (cw - 1) * self.interval.spec_step_ms();
        match s0.cursor_timestamp {
            None => None,
            Some(c) => {
                let cc: int = if c < first {
                    first
                } else if c > last_dummy {
                    last_dummy
                } else {
                    c as int
                };
                if cc == last {
                    None
                } else {
                    Some(cc as i64)
                }
            },
        }
    }

    /// The timestamp the visible window ends at.
    pub open spec fn spec_end(self, s0: CandleStickChartState, w: int) -> int {
        match self.spec_cursor1(s0, w) {
            Some(c) => c as int,
            None => self.candles@.last().timestamp as int,
        }
    }

    /// The timestamp of the window's first (oldest) slot.
    pub open spec fn spec_start(self, s0: CandleStickChartState, w: int) -> int {
        self.spec_end(s0, w) - (w - self.spec_ya_width() - 1) * self.interval.spec_step_ms()
    }

    /// The window bounds a pass stores into the state.
    pub open spec fn spec_info(self, s0: CandleStickChartState, w: int) -> CandleStikcChartInfo {
        let cw = w - self.spec_ya_width();
        let first = self.candles@[0].timestamp as int;
        let last = self.candles@.last().timestamp as int;
        let last_dummy = last + (cw - 1) * self.interval.spec_step_ms();
        CandleStikcChartInfo {
            cursor_first_timestamp: first as i64,
            cursor_last_timestamp: last_dummy as i64,
            interval: self.interval,
            latest_timestamp: last as i64,
            need_previous_candles: self.spec_start(s0, w) <= first
                - self.interval.spec_step_ms(),
        }
    }

    /// The state after one pass: unchanged when nothing is drawn,
    /// else the new bounds with the cursor re-clamped into them.
    pub open spec fn spec_render_state(self, w: int, h: int, s0: CandleStickChartState)
        -> CandleStickChartState {
        if self.spec_active(w, h) {
            s0.spec_set_info(self.spec_info(s0, w))
        } else {
            s0
        }
    }

    /// The first visible slot's timestamp: the first grid slot at or
    /// after the window start - a leading placeholder slot, a real
    /// candle, or a trailing placeholder slot.
    pub open spec fn spec_t0(self, s0: CandleStickChartState, w: int) -> int {
        let step = self.interval.spec_step_ms();
        let cw = w - self.spec_ya_width();
        let first = self.candles@[0].timestamp as int;
        let last = self.candles@.last().timestamp as int;
        let start = self.spec_start(s0, w);
        if start <= first - step {
            let lo = first - (cw - 1) * step;
            let cand = first - ((first - start) / step) * step;
            if cand < lo {
                lo
            } else {
                cand
            }
        } else {
            spec_first_real_ge(self.candles@, 0, start).unwrap()
        }
    }

    /// The last visible slot's timestamp.
    pub open spec fn spec_tlast(self, s0: CandleStickChartState, w: int) -> int {
        let step = self.interval.spec_step_ms();
        let last = self.candles@.last().timestamp as int;
        let end = self.spec_end(s0, w);
        if end >= last + step {
            last + ((end - last) / step) * step
        } else {
            spec_last_real_le(self.candles@, self.candles@.len() - 1, end).unwrap()
        }
    }

    /// The value axis of a pass, over the visible value range.
    pub open spec fn spec_y_axis(self, s0: CandleStickChartState, w: int, h: int) -> YAxis {
        let start = self.spec_start(s0, w);
        let end = self.spec_end(s0, w);
        YAxis {
            numeric: Numeric { precision: 9, scale: 3 },
            grid: Grid::Accurate,
            height: (h - 3) as u16,
            min: spec_win_min(self.candles@, start, end).unwrap() as i64,
            max: spec_win_max(self.candles@, start, end).unwrap() as i64,
        }
    }

    /// The time axis of a pass, over the visible slots.
    pub open spec fn spec_x_axis(self, s1: CandleStickChartState, w: int) -> XAxis {
        XAxis {
            width: (w - self.spec_ya_width()) as u16,
            min: self.spec_t0(s1, w) as i64,
            max: self.spec_tlast(s1, w) as i64,
            interval: self.interval,
            is_realtime: s1.cursor_timestamp is None,
        }
    }

    /// The color a candle is painted with.
    pub open spec fn spec_color(self, k: int, axis: YAxis) -> Color {
        if axis.spec_calc_y(self.candles@[k].open).num <= axis.spec_calc_y(
            self.candles@[k].close,
        ).num {
            self.bullish_color
        } else {
            self.bearish_color
        }
    }

    /// The cell a pass leaves at `(x, y)` when it draws: the candle
    /// columns win over the time axis, which wins over the axis
    /// corner, which wins over the value-axis rows; untouched cells
    /// keep the background.
    pub open spec fn spec_draw_cell(
        self,
        s1: CandleStickChartState,
        w: int,
        h: int,
        bg: Cell,
        x: int,
        y: int,
    ) -> Cell {
        let ya_w = self.spec_ya_width();
        let step = self.interval.spec_step_ms();
        let start = self.spec_start(s1, w);
        let end = self.spec_end(s1, w);
        let t0 = self.spec_t0(s1, w);
        let y_axis = self.spec_y_axis(s1, w, h);
        let x_rows = self.spec_x_axis(s1, w).spec_rows(self.display_timezone_secs as int);
        let body = spec_body_find(self.candles@, self.candles@.len() as int, x - ya_w, start,
            end, t0, step);
        if y < h - 3 && x >= ya_w && body is Some {
            Cell {
                symbol: spec_candle_column(self.candles@[body.unwrap()], y_axis)[y],
                fg: Some(self.spec_color(body.unwrap(), y_axis)),
            }
        } else if y == h - 3 && x >= ya_w {
            Cell { symbol: x_rows.0[x - ya_w], fg: None }
        } else if y == h - 3 && x == ya_w - 1 {
            Cell { symbol: '─', fg: None }
        } else if y == h - 3 && x == ya_w - 2 {
            Cell { symbol: '└', fg: None }
        } else if y == h - 2 && x >= ya_w {
            Cell { symbol: x_rows.1[x - ya_w], fg: None }
        } else if y < h - 3 && x < y_axis.spec_row(y).len() {
            Cell { symbol: y_axis.spec_row(y)[x], fg: None }
        } else {
            bg
        }
    }

    /// The cell a pass leaves at `(x, y)`: the background unless the
    /// pass is active and some candle is visible in the window.
    pub open spec fn spec_render_cell(
        self,
        w: int,
        h: int,
        s0: CandleStickChartState,
        bg: Cell,
        x: int,
        y: int,
    ) -> Cell {
        if !self.spec_active(w, h) {
            bg
        } else {
            let s1 = self.spec_render_state(w, h, s0);
            let start = self.spec_start(s1, w);
            let end = self.spec_end(s1, w);
            if spec_win_min(self.candles@, start, end) is None {
                bg
            } else {
                self.spec_draw_cell(s1, w, h, bg, x, y)
            }
        }
    }
}

} // verus!

verus! {

impl CandleStickChart {
    /// The lowest low of the (nonempty) series.
    fn global_min(&self) -> (r: i64)
        requires
            self.candles@.len() > 0,
        ensures
            r as int == spec_gmin(self.candles@),
    {
        let mut m: i64 = self.candles[0].low;
        let mut i: usize = 1;
        while i < self.candles.len()
            invariant
                1 <= i <= self.candles@.len(),
                m as int == spec_gmin(self.candles@.subrange(0, i as int)),
            decreases self.candles@.len() - i,
        {
            let c = self.candles[i];
            if c.low < m {
                m = c.low;
            }
            i = i + 1;
            assert(self.candles@.subrange(0, i as int).drop_last() =~= self.candles@.subrange(
                0, i - 1));
        }
        assert(self.candles@.subrange(0, self.candles@.len() as int) =~= self.candles@);
        m
    }

    /// The highest high of the (nonempty) series.
    fn global_max(&self) -> (r: i64)
        requires
            self.candles@.len() > 0,
        ensures
            r as int == spec_gmax(self.candles@),
    {
        let mut m: i64 = self.candles[0].high;
        let mut i: usize = 1;
        while i < self.candles.len()
            invariant
                1 <= i <= self.candles@.len(),
                m as int == spec_gmax(self.candles@.subrange(0, i as int)),
            decreases self.candles@.len() - i,
        {
            let c = self.candles[i];
            if c.high > m {
                m = c.high;
            }
            i = i + 1;
            assert(self.candles@.subrange(0, i as int).drop_last() =~= self.candles@.subrange(
                0, i - 1));
        }
        assert(self.candles@.subrange(0, self.candles@.len() as int) =~= self.candles@);
        m
    }

    /// The lowest low among candles inside `[lo, hi]`.
    fn window_min(&self, lo: i64, hi: i64) -> (r: Option<i64>)
        ensures
            r is Some <==> spec_win_min(self.candles@, lo as int, hi as int) is Some,
            r is Some ==> r.unwrap() as int == spec_win_min(self.candles@, lo as int,
                hi as int).unwrap(),
    {
        let mut m: Option<i64> = None;
        let mut i: usize = 0;
        while i < self.candles.len()
            invariant
                i <= self.candles@.len(),
                m is Some <==> spec_win_min(self.candles@.subrange(0, i as int), lo as int,
                    hi as int) is Some,
                m is Some ==> m.unwrap() as int == spec_win_min(self.candles@.subrange(
                    0, i as int), lo as int, hi as int).unwrap(),
            decreases self.candles@.len() - i,
        {
            let c = self.candles[i];
            if lo <= c.timestamp && c.timestamp <= hi {
                m = match m {
                    None => Some(c.low),
                    Some(v) => if c.low < v {
                        Some(c.low)
                    } else {
                        Some(v)
                    },
                };
            }
            i = i + 1;
            assert(self.candles@.subrange(0, i as int).drop_last() =~= self.candles@.subrange(
                0, i - 1));
            assert(self.candles@.subrange(0, i as int).last() == self.candles@[i - 1]);
        }
        assert(self.candles@.subrange(0, self.candles@.len() as int) =~= self.candles@);
        m
    }

    /// The highest high among candles inside `[lo, hi]`.
    fn window_max(&self, lo: i64, hi: i64) -> (r: Option<i64>)
        ensures
            r is Some <==> spec_win_max(self.candles@, lo as int, hi as int) is Some,
            r is Some ==> r.unwrap() as int == spec_win_max(self.candles@, lo as int,
                hi as int).unwrap(),
    {
        let mut m: Option<i64> = None;
        let mut i: usize = 0;
        while i < self.candles.len()
            invariant
                i <= self.candles@.len(),
                m is Some <==> spec_win_max(self.candles@.subrange(0, i as int), lo as int,
                    hi as int) is Some,
                m is Some ==> m.unwrap() as int == spec_win_max(self.candles@.subrange(
                    0, i as int), lo as int, hi as int).unwrap(),
            decreases self.candles@.len() - i,
        {
            let c = self.candles[i];
            if lo <= c.timestamp && c.timestamp <= hi {
                m = match m {
                    None => Some(c.high),
                    Some(v) => if c.high > v {
                        Some(c.high)
                    } else {
                        Some(v)
                    },
                };
            }
            i = i + 1;
            assert(self.candles@.subrange(0, i as int).drop_last() =~= self.candles@.subrange(
                0, i - 1));
            assert(self.candles@.subrange(0, i as int).last() == self.candles@[i - 1]);
        }
        assert(self.candles@.subrange(0, self.candles@.len() as int) =~= self.candles@);
        m
    }

    /// The timestamp of the first candle at or after `t`.
    fn first_real_ge(&self, t: i64) -> (r: Option<i64>)
        ensures
            r is Some <==> spec_first_real_ge(self.candles@, 0, t as int) is Some,
            r is Some ==> r.unwrap() as int == spec_first_real_ge(self.candles@, 0,
                t as int).unwrap(),
    {
        let mut i: usize = 0;
        while i < self.candles.len()
            invariant
                i <= self.candles@.len(),
                spec_first_real_ge(self.candles@, 0, t as int) == spec_first_real_ge(
                    self.candles@, i as int, t as int),
                forall|j: int| 0 <= j < i as int ==> (#[trigger] self.candles@[j]).timestamp < t,
            decreases self.candles@.len() - i,
        {
            let c = self.candles[i];
            if c.timestamp >= t {
                return Some(c.timestamp);
            }
            i = i + 1;
        }
        None
    }

    /// The timestamp of the last candle at or before `t`.
    fn last_real_le(&self, t: i64) -> (r: Option<i64>)
        ensures
            r is Some <==> spec_last_real_le(self.candles@, self.candles@.len() - 1,
                t as int) is Some,
            r is Some ==> r.unwrap() as int == spec_last_real_le(self.candles@,
                self.candles@.len() - 1, t as int).unwrap(),
    {
        let mut i: usize = self.candles.len();
        while i > 0
            invariant
                i <= self.candles@.len(),
                spec_last_real_le(self.candles@, self.candles@.len() - 1, t as int)
                    == spec_last_real_le(self.candles@, i as int - 1, t as int),
            decreases i,
        {
            let c = self.candles[i - 1];
            if c.timestamp <= t {
                return Some(c.timestamp);
            }
            i = i - 1;
        }
        None
    }
}

} // verus!

verus! {

/// A window's lowest low and highest high exist together, and order
/// correctly, for a series of valid candles.
proof fn lemma_win_min_le_max(s: Seq<Candle>, lo: int, hi: int)
    requires
        forall|i: int| 0 <= i < s.len() ==> (#[trigger] s[i]).wf(),
    ensures
        spec_win_min(s, lo, hi) is Some <==> spec_win_max(s, lo, hi) is Some,
        spec_win_min(s, lo, hi) is Some ==> spec_win_min(s, lo, hi).unwrap() <= spec_win_max(
            s, lo, hi).unwrap(),
    decreases s.len(),
{
    if s.len() > 0 {
        lemma_win_min_le_max(s.drop_last(), lo, hi);
        assert(s.last().wf());
    }
}

/// A window's lowest low exists exactly when some candle lies in the
/// window; any such candle witnesses it.
proof fn lemma_win_exists(s: Seq<Candle>, lo: int, hi: int)
    ensures
        spec_win_min(s, lo, hi) is Some <==> exists|i: int|
            0 <= i < s.len() && lo <= (#[trigger] s[i]).timestamp <= hi,
    decreases s.len(),
{
    if s.len() > 0 {
        lemma_win_exists(s.drop_last(), lo, hi);
        if lo <= s.last().timestamp <= hi {
            assert(lo <= s[s.len() - 1].timestamp <= hi);
        } else {
            if spec_win_min(s.drop_last(), lo, hi) is Some {
                let i = choose|i: int|
                    0 <= i < s.drop_last().len() && lo <= (#[trigger] s.drop_last()[
                        i]).timestamp <= hi;
                assert(lo <= s[i].timestamp <= hi);
            }
            if exists|i: int| 0 <= i < s.len() && lo <= (#[trigger] s[i]).timestamp <= hi {
                let i = choose|i: int|
                    0 <= i < s.len() && lo <= (#[trigger] s[i]).timestamp <= hi;
                assert(i < s.len() - 1);
                assert(lo <= s.drop_last()[i].timestamp <= hi);
            }
        }
    }
}

/// The first candle at or after `t` is at or after `t`, at most any
/// later qualifying candle, no later than the series' last candle,
/// and itself on the series grid.
proof fn lemma_first_real_ge_props(s: Seq<Candle>, i: int, t: int, interval: Interval)
    requires
        spec_series_wf(s, interval),
        0 <= i <= s.len(),
    ensures
        spec_first_real_ge(s, i, t) is Some ==> {
            let r = spec_first_real_ge(s, i, t).unwrap();
            &&& r >= t
            &&& exists|j: int| i <= j < s.len() && (#[trigger] s[j]).timestamp == r
            &&& forall|j: int|
                i <= j < s.len() && (#[trigger] s[j]).timestamp >= t ==> s[j].timestamp >= r
        },
        (spec_first_real_ge(s, i, t) is None) ==> forall|j: int|
            i <= j < s.len() ==> (#[trigger] s[j]).timestamp < t,
    decreases s.len() - i,
{
    if 0 <= i < s.len() {
        if s[i].timestamp >= t {
        } else {
            lemma_first_real_ge_props(s, i + 1, t, interval);
        }
    }
}

/// The last candle at or before `t` is at or before `t`, at least any
/// earlier qualifying candle, and a real timestamp of the series.
proof fn lemma_last_real_le_props(s: Seq<Candle>, i: int, t: int, interval: Interval)
    requires
        spec_series_wf(s, interval),
        -1 <= i < s.len(),
    ensures
        spec_last_real_le(s, i, t) is Some ==> {
            let r = spec_last_real_le(s, i, t).unwrap();
            &&& r <= t
            &&& exists|j: int| 0 <= j <= i && (#[trigger] s[j]).timestamp == r
            &&& forall|j: int|
                0 <= j <= i && (#[trigger] s[j]).timestamp <= t ==> s[j].timestamp <= r
        },
        (spec_last_real_le(s, i, t) is None) ==> forall|j: int|
            0 <= j <= i ==> (#[trigger] s[j]).timestamp > t,
    decreases i + 1,
{
    if 0 <= i {
        if s[i].timestamp <= t {
        } else {
            lemma_last_real_le_props(s, i - 1, t, interval);
        }
    }
}

/// Division facts for slot arithmetic.
proof fn lemma_div_mul_range(a: int, b: int)
    requires
        a >= 0,
        b >= 1,
    ensures
        0 <= (a / b) * b <= a,
        (a / b) * b > a - b,
{
    assert(0 <= (a / b) * b <= a && (a / b) * b > a - b) by (nonlinear_arith)
        requires
            a >= 0,
            b >= 1,
    ;
}

/// A bounded numerator gives a bounded quotient.
proof fn lemma_div_upper(a: int, b: int, c: int)
    requires
        0 <= a <= c * b,
        b >= 1,
    ensures
        0 <= a / b <= c,
{
    assert(0 <= a / b <= c) by (nonlinear_arith)
        requires
            0 <= a <= c * b,
            b >= 1,
    ;
}

} // verus!

verus! {

impl CandleStickChart {
    /// Paints the value-axis rows, the axis corner and the time-axis
    /// rows; candle columns come afterwards.
    #[verifier::rlimit(100)]
    fn paint_axes(
        &self,
        buf: &mut Buffer,
        ya_w: u16,
        y_axis: &YAxis,
        rows: &Vec<String>,
        x_rule: &Vec<char>,
        x_label: &Vec<char>,
        Ghost(s1): Ghost<CandleStickChartState>,
    )
        requires
            old(buf).wf(),
            old(buf).height > 3,
            4 <= ya_w < old(buf).width,
            ya_w as int == self.spec_ya_width(),
            *y_axis == self.spec_y_axis(s1, old(buf).width as int, old(buf).height as int),
            y_axis.height == old(buf).height - 3,
            rows@.len() == y_axis.height as int,
            forall|r: int| 0 <= r < rows@.len() ==> (#[trigger] rows@[r])@ == y_axis.spec_row(r),
            x_rule@ == self.spec_x_axis(s1, old(buf).width as int).spec_rows(
                self.display_timezone_secs as int).0,
            x_label@ == self.spec_x_axis(s1, old(buf).width as int).spec_rows(
                self.display_timezone_secs as int).1,
            x_rule@.len() == old(buf).width - ya_w,
            x_label@.len() == old(buf).width - ya_w,
        ensures
            final(buf).wf(),
            final(buf).width == old(buf).width,
            final(buf).height == old(buf).height,
            forall|x: int, y: int|
                0 <= x < old(buf).width && 0 <= y < old(buf).height ==> #[trigger] final(
                    buf).cell_at(x, y) == spec_axes_cell(*self, s1, old(buf).width as int,
                    old(buf).height as int, old(buf).cell_at(x, y), x, y),
    {
        let width = buf.width();
        let height = buf.height();
        let ghost w = width as int;
        let ghost h = height as int;
        let ghost b0 = *buf;

        let mut yi: u16 = 0;
        while yi < height - 3
            invariant
                yi <= height - 3,
                3 < height,
                buf.wf(),
                buf.width == width,
                buf.height == height,
                b0.width == width,
                b0.height == height,
                rows@.len() == height - 3,
                forall|r: int|
                    0 <= r < rows@.len() ==> (#[trigger] rows@[r])@ == y_axis.spec_row(r),
                forall|x: int, y: int|
                    0 <= x < width && 0 <= y < height ==> #[trigger] buf.cell_at(x, y) == (if y
                        < yi as int && x < y_axis.spec_row(y).len() {
                        Cell { symbol: y_axis.spec_row(y)[x], fg: None }
                    } else {
                        b0.cell_at(x, y)
                    }),
            decreases height as int - 3 - yi as int,
        {
            let rchars = string_to_chars(rows[yi as usize].as_str());
            buf.write_row_clipped(0, yi, &rchars, None);
            yi = yi + 1;
        }

        let mut corner: Vec<char> = Vec::new();
        corner.push('└');
        corner.push('─');
        corner.push('─');
        buf.write_row(ya_w - 2, height - 3, &corner, None);
        buf.write_row(ya_w, height - 3, x_rule, None);
        buf.write_row(ya_w, height - 2, x_label, None);

        proof {
            assert forall|x: int, y: int| 0 <= x < width && 0 <= y < height implies #[trigger]
                buf.cell_at(x, y) == spec_axes_cell(*self, s1, w, h, b0.cell_at(x, y), x, y) by {}
        }
    }

    /// Paints one column per candle visible in the window.
    #[verifier::rlimit(100)]
    fn paint_candles(
        &self,
        buf: &mut Buffer,
        ya_w: u16,
        step: i64,
        start: i64,
        end: i64,
        t0: i64,
        y_axis: &YAxis,
        Ghost(s1): Ghost<CandleStickChartState>,
    )
        requires
            old(buf).wf(),
            old(buf).height > 3,
            ya_w < old(buf).width,
            old(buf).width <= 65535,
            self.spec_active(old(buf).width as int, old(buf).height as int),
            spec_series_wf(self.candles@, self.interval),
            ya_w as int == self.spec_ya_width(),
            step == self.interval.spec_step_ms(),
            start as int == self.spec_start(s1, old(buf).width as int),
            end as int == self.spec_end(s1, old(buf).width as int),
            t0 as int == self.spec_t0(s1, old(buf).width as int),
            *y_axis == self.spec_y_axis(s1, old(buf).width as int, old(buf).height as int),
            y_axis.min <= y_axis.max,
            y_axis.height == old(buf).height - 3,
            self.candles@[0].timestamp <= end,
            end as int - start as int == (old(buf).width - ya_w - 1) * step as int,
        ensures
            final(buf).wf(),
            final(buf).width == old(buf).width,
            final(buf).height == old(buf).height,
            forall|x: int, y: int|
                0 <= x < old(buf).width && 0 <= y < old(buf).height ==> #[trigger] final(
                    buf).cell_at(x, y) == (if y < old(buf).height - 3 && x >= ya_w
                    && spec_body_find(self.candles@, self.candles@.len() as int, x - ya_w,
                    start as int, end as int, t0 as int, step as int) is Some {
                    Cell {
                        symbol: spec_candle_column(
                            self.candles@[spec_body_find(self.candles@,
                                self.candles@.len() as int, x - ya_w, start as int, end as int,
                                t0 as int, step as int).unwrap()],
                            *y_axis,
                        )[y],
                        fg: Some(self.spec_color(spec_body_find(self.candles@,
                            self.candles@.len() as int, x - ya_w, start as int, end as int,
                            t0 as int, step as int).unwrap(), *y_axis)),
                    }
                } else {
                    old(buf).cell_at(x, y)
                }),
    {
        let width = buf.width();
        let height = buf.height();
        let ghost w = width as int;
        let ghost h = height as int;
        let ghost b0 = *buf;
        let cw: u16 = width - ya_w;

        let mut k: usize = 0;
        while k < self.candles.len()
            invariant
                k <= self.candles@.len(),
                buf.wf(),
                buf.width == width,
                buf.height == height,
                width <= 65535,
                w == width as int,
                h == height as int,
                b0.width == width,
                b0.height == height,
                3 < height,
                ya_w < width,
                cw == width - ya_w,
                self.spec_active(w, h),
                spec_series_wf(self.candles@, self.interval),
                ya_w as int == self.spec_ya_width(),
                step == self.interval.spec_step_ms(),
                start as int == self.spec_start(s1, w),
                end as int == self.spec_end(s1, w),
                t0 as int == self.spec_t0(s1, w),
                *y_axis == self.spec_y_axis(s1, w, h),
                y_axis.min <= y_axis.max,
                y_axis.height == height - 3,
                self.candles@[0].timestamp <= end,
                end as int - start as int == (cw as int - 1) * step as int,
                forall|x: int, y: int|
                    0 <= x < width && 0 <= y < height ==> #[trigger] buf.cell_at(x, y) == (if y
                        < h - 3 && x >= ya_w && spec_body_find(self.candles@, k as int, x
                        - ya_w, start as int, end as int, t0 as int, step as int) is Some {
                        Cell {
                            symbol: spec_candle_column(
                                self.candles@[spec_body_find(self.candles@, k as int, x - ya_w,
                                    start as int, end as int, t0 as int,
                                    step as int).unwrap()],
                                *y_axis,
                            )[y],
                            fg: Some(self.spec_color(spec_body_find(self.candles@, k as int, x
                                - ya_w, start as int, end as int, t0 as int,
                                step as int).unwrap(), *y_axis)),
                        }
                    } else {
                        b0.cell_at(x, y)
                    }),
            decreases self.candles@.len() - k,
        {
            let c = self.candles[k];
            if start <= c.timestamp && c.timestamp <= end {
                proof {
                    assert(self.candles@[k as int].timestamp == c.timestamp);
                    lemma_t0_le_window_real(*self, s1, w, t0 as int, c.timestamp as int,
                        k as int);
                    lemma_div_upper((c.timestamp - t0) as int, step as int, cw as int - 1);
                }
                let pos: u16 = ((((c.timestamp - t0) as u64) / (step as u64)) as u16);
                let (ctype, col) = c.render(y_axis);
                let color = match ctype {
                    CandleType::Bearish => self.bearish_color,
                    CandleType::Bullish => self.bullish_color,
                };
                assert(color == self.spec_color(k as int, *y_axis));
                let ghost bprev = *buf;
                buf.write_column(ya_w + pos, &col, Some(color));
                proof {
                    assert forall|x: int, y: int| 0 <= x < width && 0 <= y < height implies
                        #[trigger] buf.cell_at(x, y) == (if y < h - 3 && x >= ya_w
                        && spec_body_find(self.candles@, k as int + 1, x - ya_w, start as int,
                        end as int, t0 as int, step as int) is Some {
                        Cell {
                            symbol: spec_candle_column(
                                self.candles@[spec_body_find(self.candles@, k as int + 1, x
                                    - ya_w, start as int, end as int, t0 as int,
                                    step as int).unwrap()],
                                *y_axis,
                            )[y],
                            fg: Some(self.spec_color(spec_body_find(self.candles@, k as int
                                + 1, x - ya_w, start as int, end as int, t0 as int,
                                step as int).unwrap(), *y_axis)),
                        }
                    } else {
                        b0.cell_at(x, y)
                    }) by {
                        if x == ya_w as int + pos as int {
                            assert((self.candles@[k as int].timestamp - t0 as int) / (
                            step as int) == pos as int);
                            assert(spec_body_find(self.candles@, k as int + 1, x - ya_w,
                                start as int, end as int, t0 as int, step as int) == Some(
                                k as int));
                        } else {
                            assert(spec_body_find(self.candles@, k as int + 1, x - ya_w,
                                start as int, end as int, t0 as int, step as int)
                                == spec_body_find(self.candles@, k as int, x - ya_w,
                                start as int, end as int, t0 as int, step as int));
                        }
                    }
                }
            } else {
                proof {
                    assert forall|col: int| true implies spec_body_find(self.candles@, k as int
                        + 1, col, start as int, end as int, t0 as int, step as int)
                        == spec_body_find(self.candles@, k as int, col, start as int,
                        end as int, t0 as int, step as int) by {}
                }
            }
            k = k + 1;
        }
    }

    /// One render pass: stores the new window bounds in `state`
    /// (re-clamping the cursor) and paints the frame into `buf`.
    /// Empty series, too-small areas and windows holding no candle
    /// leave the buffer untouched.
    #[verifier::rlimit(100)]
    pub fn render(&self, buf: &mut Buffer, state: &mut CandleStickChartState)
        requires
            old(buf).wf(),
            old(state).wf(),
            spec_series_wf(self.candles@, self.interval),
            -86_400 < self.display_timezone_secs < 86_400,
        ensures
            final(buf).wf(),
            final(buf).width == old(buf).width,
            final(buf).height == old(buf).height,
            *final(state) == self.spec_render_state(old(buf).width as int,
                old(buf).height as int, *old(state)),
            final(state).wf(),
            forall|x: int, y: int|
                0 <= x < old(buf).width && 0 <= y < old(buf).height ==> #[trigger] final(
                    buf).cell_at(x, y) == self.spec_render_cell(old(buf).width as int,
                    old(buf).height as int, *old(state), old(buf).cell_at(x, y), x, y),
    {
        let ghost w = old(buf).width as int;
        let ghost h = old(buf).height as int;
        let ghost s0 = *old(state);

        if self.candles.len() == 0 {
            return;
        }

        let gmin = self.global_min();
        let gmax = self.global_max();
        let numeric = Numeric::new(9, 3);
        let ya_w: u16 = YAxis::estimated_width(Some(numeric), gmin, gmax);
        assert(ya_w as int == self.spec_ya_width());
        if buf.width() <= ya_w || buf.height() <= 3 {
            return;
        }
        assert(self.spec_active(w, h));

        let width = buf.width();
        let height = buf.height();
        let cw: u16 = width - ya_w;
        let step: i64 = self.interval.step_ms();
        let first: i64 = self.candles[0].timestamp;
        let last: i64 = self.candles[self.candles.len() - 1].timestamp;
        proof {
            assert(self.candles@[0].wf());
            assert(self.candles@[self.candles@.len() - 1].wf());
            if self.candles@.len() > 1 {
                assert(self.candles@[0].timestamp < self.candles@[self.candles@.len()
                    - 1].timestamp);
            }
            assert(0 <= (cw as int - 1) * step as int <= 65535 * 604800000) by (nonlinear_arith)
                requires
                    0 <= cw as int - 1 < 65536,
                    1000 <= step as int <= 604800000,
            ;
        }
        let reach: i64 = (cw as i64 - 1) * step;
        let last_dummy: i64 = last + reach;

        // re-clamp the cursor against the new bounds
        let cursor1: Option<i64> = match state.cursor_timestamp {
            None => None,
            Some(c) => {
                let cc: i64 = if c < first {
                    first
                } else if c > last_dummy {
                    last_dummy
                } else {
                    c
                };
                if cc == last {
                    None
                } else {
                    Some(cc)
                }
            },
        };
        assert(cursor1 == self.spec_cursor1(s0, w));
        let end: i64 = match cursor1 {
            Some(c) => c,
            None => last,
        };
        let start: i64 = end - reach;
        assert(end as int == self.spec_end(s0, w));
        assert(start as int == self.spec_start(s0, w));
        assert(first <= end <= last_dummy);

        let info = CandleStikcChartInfo::new(
            first,
            last_dummy,
            self.interval,
            last,
            start <= first - step,
        );
        assert(info == self.spec_info(s0, w));
        assert(info.wf());
        state.set_info(info);
        let ghost s1 = *state;
        assert(s1 == self.spec_render_state(w, h, s0));
        proof {
            // the clamp is already a fixed point, so the stored cursor
            // and the window derived from it agree with the pass spec
            assert(s1.cursor_timestamp == cursor1);
            assert(self.spec_cursor1(s1, w) == cursor1);
            assert(self.spec_end(s1, w) == end as int);
            assert(self.spec_start(s1, w) == start as int);
        }

        // the visible value range; nothing to paint without data
        let win_min = self.window_min(start, end);
        let win_max = self.window_max(start, end);
        proof {
            lemma_win_min_le_max(self.candles@, start as int, end as int);
        }
        let y_min: i64;
        let y_max: i64;
        match (win_min, win_max) {
            (Some(a), Some(b)) => {
                y_min = a;
                y_max = b;
            },
            _ => {
                return;
            },
        }

        let y_axis = YAxis::new(Some(numeric), Grid::Accurate, height - 3, y_min, y_max);
        assert(y_axis == self.spec_y_axis(s1, w, h));
        let rows = y_axis.render();

        // the visible slot range of the time axis
        let t0: i64;
        if start <= first - step {
            let lo: i64 = first - reach;
            proof {
                lemma_div_mul_range((first - start) as int, step as int);
            }
            let q: i64 = (((first - start) as u64) / (step as u64)) as i64;
            let cand: i64 = first - q * step;
            t0 = if cand < lo {
                lo
            } else {
                cand
            };
        } else {
            proof {
                lemma_first_real_ge_props(self.candles@, 0, start as int, self.interval);
                assert(start <= last);
                assert(self.candles@[self.candles@.len() - 1].timestamp >= start);
            }
            let r = self.first_real_ge(start);
            t0 = r.unwrap();
        }
        assert(t0 as int == self.spec_t0(s1, w));

        let tl: i64;
        if end >= last + step {
            proof {
                lemma_div_mul_range((end - last) as int, step as int);
                lemma_div_upper((end - last) as int, step as int, cw as int - 1);
            }
            let q: i64 = (((end - last) as u64) / (step as u64)) as i64;
            tl = last + q * step;
        } else {
            proof {
                lemma_last_real_le_props(self.candles@, self.candles@.len() - 1, end as int,
                    self.interval);
                assert(self.candles@[0].timestamp <= end);
            }
            let r = self.last_real_le(end);
            tl = r.unwrap();
        }
        assert(tl as int == self.spec_tlast(s1, w));

        proof {
            lemma_t0_le_tlast(*self, s1, w, t0 as int, tl as int);
        }
        let x_axis = XAxis::new(cw, t0, tl, self.interval, cursor1.is_none());
        assert(x_axis == self.spec_x_axis(s1, w));
        let x_rows = x_axis.render(self.display_timezone_secs);
        let rule_chars = string_to_chars(x_rows[0].as_str());
        let label_chars = string_to_chars(x_rows[1].as_str());

        let ghost b0 = *buf;
        self.paint_axes(buf, ya_w, &y_axis, &rows, &rule_chars, &label_chars, Ghost(s1));
        self.paint_candles(buf, ya_w, step, start, end, t0, &y_axis, Ghost(s1));

        proof {
            assert forall|x: int, y: int| 0 <= x < width && 0 <= y < height implies #[trigger]
                buf.cell_at(x, y) == self.spec_render_cell(w, h, s0, b0.cell_at(x, y), x,
                y) by {}
        }
    }
}

/// The frame after the axes are painted and before the candles.
pub open spec fn spec_axes_cell(
    c: CandleStickChart,
    s1: CandleStickChartState,
    w: int,
    h: int,
    bg: Cell,
    x: int,
    y: int,
) -> Cell {
    let ya_w = c.spec_ya_width();
    let y_axis = c.spec_y_axis(s1, w, h);
    let x_rows = c.spec_x_axis(s1, w).spec_rows(c.display_timezone_secs as int);
    if y == h - 3 && x >= ya_w {
        Cell { symbol: x_rows.0[x - ya_w], fg: None }
    } else if y == h - 3 && x == ya_w - 1 {
        Cell { symbol: '─', fg: None }
    } else if y == h - 3 && x == ya_w - 2 {
        Cell { symbol: '└', fg: None }
    } else if y == h - 2 && x >= ya_w {
        Cell { symbol: x_rows.1[x - ya_w], fg: None }
    } else if y < h - 3 && x < y_axis.spec_row(y).len() {
        Cell { symbol: y_axis.spec_row(y)[x], fg: None }
    } else {
        bg
    }
}

/// The first visible slot is no later than the last one, and both
/// lie inside the time axis' range.
proof fn lemma_t0_le_tlast(
    c: CandleStickChart,
    s1: CandleStickChartState,
    w: int,
    t0: int,
    tl: int,
)
    requires
        c.spec_active(w, 4),
        w <= 65535,
        spec_series_wf(c.candles@, c.interval),
        t0 == c.spec_t0(s1, w),
        tl == c.spec_tlast(s1, w),
        c.candles@[0].timestamp as int <= c.spec_end(s1, w),
        c.spec_end(s1, w) <= c.candles@.last().timestamp + (w - c.spec_ya_width() - 1)
            * c.interval.spec_step_ms(),
        spec_win_min(c.candles@, c.spec_start(s1, w), c.spec_end(s1, w)) is Some,
    ensures
        t0 <= tl,
        -MAX_AXIS_TIMESTAMP_MS <= t0,
        tl <= MAX_AXIS_TIMESTAMP_MS,
{
    let s = c.candles@;
    let step = c.interval.spec_step_ms();
    let cw = w - c.spec_ya_width();
    let first = s[0].timestamp as int;
    let last = s.last().timestamp as int;
    let start = c.spec_start(s1, w);
    let end = c.spec_end(s1, w);
    assert(s[0].wf());
    assert(s.last().wf());
    if s.len() > 1 {
        assert(s[0].timestamp < s[s.len() - 1].timestamp);
    }
    assert(first <= last);
    lemma_win_exists(s, start, end);
    let wi = choose|i: int| 0 <= i < s.len() && start <= (#[trigger] s[i]).timestamp <= end;
    assert(s[wi].wf());
    if 0 < wi {
        assert(s[0].timestamp < s[wi].timestamp);
    }
    if wi < s.len() - 1 {
        assert(s[wi].timestamp < s[s.len() - 1].timestamp);
    }
    assert(first <= s[wi].timestamp <= last);
    assert(0 <= (cw - 1) * step <= 65535 * 604800000) by (nonlinear_arith)
        requires
            0 <= cw - 1 < 65536,
            1000 <= step <= 604800000,
    ;
    if start <= first - step {
        // the window reaches before the first candle: the first slot
        // is a leading placeholder
        lemma_div_mul_range(first - start, step);
        assert((first - start) / step >= 1) by (nonlinear_arith)
            requires
                first - start >= step,
                step >= 1,
        ;
        assert(((first - start) / step) * step >= step) by (nonlinear_arith)
            requires
                (first - start) / step >= 1,
                step >= 1,
        ;
        assert(t0 <= first - step);
        assert(t0 >= first - (cw - 1) * step);
        assert(t0 >= start || t0 >= first - (cw - 1) * step);
    } else {
        lemma_first_real_ge_props(s, 0, start, c.interval);
        assert(s[wi].timestamp >= start);
        assert(t0 <= s[wi].timestamp);
        assert(t0 >= start);
        assert(t0 <= last);
    }
    if end >= last + step {
        lemma_div_mul_range(end - last, step);
        lemma_div_upper(end - last, step, cw - 1);
        assert((end - last) / step >= 1) by (nonlinear_arith)
            requires
                end - last >= step,
                step >= 1,
        ;
        assert(((end - last) / step) * step >= step) by (nonlinear_arith)
            requires
                (end - last) / step >= 1,
                step >= 1,
        ;
        assert(((end - last) / step) * step <= (cw - 1) * step) by (nonlinear_arith)
            requires
                (end - last) / step <= cw - 1,
                step >= 1,
        ;
        assert(tl >= last + step);
        assert(tl <= last + (cw - 1) * step);
    } else {
        lemma_last_real_le_props(s, s.len() - 1, end, c.interval);
        assert(s[wi].timestamp <= end);
        assert(tl >= s[wi].timestamp);
        assert(first <= tl <= last);
    }
    if start <= first - step {
        assert(tl >= s[wi].timestamp >= first || tl >= last + step);
        assert(t0 <= first - step < first);
    } else {
        if end >= last + step {
            assert(t0 <= last < tl);
        } else {
            assert(tl >= s[wi].timestamp >= t0);
        }
    }
}

/// Any candle in the visible window sits at or after the first
/// visible slot, and within a screen of slots.
proof fn lemma_t0_le_window_real(
    c: CandleStickChart,
    s1: CandleStickChartState,
    w: int,
    t0: int,
    t: int,
    ki: int,
)
    requires
        c.spec_active(w, 4),
        w <= 65535,
        spec_series_wf(c.candles@, c.interval),
        t0 == c.spec_t0(s1, w),
        0 <= ki < c.candles@.len(),
        c.candles@[ki].timestamp == t,
        c.spec_start(s1, w) <= t <= c.spec_end(s1, w),
    ensures
        t0 <= t,
        t - t0 <= (w - c.spec_ya_width() - 1) * c.interval.spec_step_ms(),
        t - t0 <= 65535 * 604800000,
{
    let s = c.candles@;
    let step = c.interval.spec_step_ms();
    let cw = w - c.spec_ya_width();
    let first = s[0].timestamp as int;
    let start = c.spec_start(s1, w);
    let end = c.spec_end(s1, w);
    assert(s[0].wf());
    assert(s[ki].wf());
    if 0 < ki {
        assert(s[0].timestamp < s[ki].timestamp);
    }
    assert(first <= t);
    assert(0 <= (cw - 1) * step <= 65535 * 604800000) by (nonlinear_arith)
        requires
            0 <= cw - 1 < 65536,
            1000 <= step <= 604800000,
    ;
    if start <= first - step {
        lemma_div_mul_range(first - start, step);
        assert((first - start) / step >= 1) by (nonlinear_arith)
            requires
                first - start >= step,
                step >= 1,
        ;
        assert(((first - start) / step) * step >= step) by (nonlinear_arith)
            requires
                (first - start) / step >= 1,
                step >= 1,
        ;
        assert(t0 <= first - step < t);
        assert(t0 >= start || t0 >= first - (cw - 1) * step);
        assert(t0 >= start);
    } else {
        lemma_first_real_ge_props(s, 0, start, c.interval);
        assert(t0 <= t);
        assert(t0 >= start);
    }
    assert(t - t0 <= end - start);
}

} // verus!

verus! {

/// Rendering is idempotent: a second pass over the produced buffer
/// with the produced state leaves both exactly as they were - the
/// state because the re-clamped cursor is already a fixed point of
/// the clamp, and every cell because a painted cell is a function of
/// chart and state alone while an untouched cell stays untouched.
pub proof fn lemma_render_idempotent(c: CandleStickChart, w: int, h: int, s0: CandleStickChartState)
    requires
        0 <= w <= 65535,
        spec_series_wf(c.candles@, c.interval),
    ensures
        c.spec_render_state(w, h, c.spec_render_state(w, h, s0)) == c.spec_render_state(w, h, s0),
        forall|bg: Cell, x: int, y: int|
            c.spec_render_cell(w, h, c.spec_render_state(w, h, s0), #[trigger] c.spec_render_cell(
                w, h, s0, bg, x, y), x, y) == c.spec_render_cell(w, h, s0, bg, x, y),
{
    let s1 = c.spec_render_state(w, h, s0);
    if c.spec_active(w, h) {
        let step = c.interval.spec_step_ms();
        let cw = w - c.spec_ya_width();
        let first = c.candles@[0].timestamp as int;
        let last = c.candles@.last().timestamp as int;
        assert(c.candles@[0].wf());
        assert(c.candles@[c.candles@.len() - 1].wf());
        if c.candles@.len() > 1 {
            assert(c.candles@[0].timestamp < c.candles@[c.candles@.len() - 1].timestamp);
        }
        assert(first <= last);
        assert(0 <= (cw - 1) * step <= 65535 * 604800000) by (nonlinear_arith)
            requires
                0 <= cw - 1 < 65536,
                1000 <= step <= 604800000,
        ;
        assert(s1.cursor_timestamp == c.spec_cursor1(s0, w));
        assert(c.spec_cursor1(s1, w) == c.spec_cursor1(s0, w));
        assert(c.spec_info(s1, w) == c.spec_info(s0, w));
        assert(c.spec_render_state(w, h, s1) == s1);
    }
    assert forall|bg: Cell, x: int, y: int|
        c.spec_render_cell(w, h, s1, #[trigger] c.spec_render_cell(w, h, s0, bg, x, y), x, y)
            == c.spec_render_cell(w, h, s0, bg, x, y) by {
        if c.spec_active(w, h) {
            let start = c.spec_start(s1, w);
            let end = c.spec_end(s1, w);
            assert(c.spec_render_state(w, h, s1) == s1);
            if spec_win_min(c.candles@, start, end) is Some {
                let first_out = c.spec_draw_cell(s1, w, h, bg, x, y);
                assert(c.spec_draw_cell(s1, w, h, first_out, x, y) == first_out);
            }
        }
    }
}

/// A degenerate area - too narrow for the reserved axis columns, or
/// not taller than the axis rows - draws nothing and leaves the
/// state alone.
pub proof fn lemma_degenerate_area_draws_nothing(
    c: CandleStickChart,
    w: int,
    h: int,
    s0: CandleStickChartState,
    bg: Cell,
    x: int,
    y: int,
)
    requires
        w <= c.spec_ya_width() || h <= 3,
    ensures
        c.spec_render_cell(w, h, s0, bg, x, y) == bg,
        c.spec_render_state(w, h, s0) == s0,
{
}

} // verus!
