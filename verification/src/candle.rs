//! Candles and the per-column glyph renderer.
//!
//! One candle maps to one column of characters, one per chart row, top
//! to bottom.  All row decisions compare the exact fractional row
//! coordinates of the candle's four prices (shared denominator, see
//! [`crate::y_axis::RowPos`]) against quarter- and half-row
//! thresholds, so the column is a pure function of candle and axis.

use vstd::prelude::*;

use crate::candlestick_chart_state::MAX_TIMESTAMP_MS;
use crate::symbols::{
    UNICODE_BODY, UNICODE_DOWN, UNICODE_HALF_BODY_BOTTOM, UNICODE_HALF_BODY_TOP,
    UNICODE_HALF_WICK_BOTTOM, UNICODE_HALF_WICK_TOP, UNICODE_UP, UNICODE_VOID, UNICODE_WICK,
};
use crate::y_axis::YAxis;

verus! {

/// Whether a candle closed at or above its open (bullish) or below
/// (bearish); decides the column's color.
#[derive(Debug, Clone, Copy, PartialEq, Eq, Structural)]
pub enum CandleType {
    Bearish,
    Bullish,
}

/// One OHLC bar: its opening instant (milliseconds since the epoch)
/// and four prices in micro-units.
#[derive(Debug, Clone, Copy, PartialEq, Eq, Structural)]
pub struct Candle {
    pub timestamp: i64,
    pub open: i64,
    pub high: i64,
    pub low: i64,
    pub close: i64,
}

impl Candle {
    /// A valid candle: the high is at least the low, and the
    /// timestamp is within the range the chart arithmetic covers.
    pub open spec fn wf(self) -> bool {
        &&& self.high >= self.low
        &&& -MAX_TIMESTAMP_MS <= self.timestamp <= MAX_TIMESTAMP_MS
    }

    /// Builds a candle; fails exactly when the high is below the low.
    /// Prices are in micro-units.
    pub fn new(timestamp: i64, open: i64, high: i64, low: i64, close: i64) -> (r: Option<Candle>)
        requires
            -MAX_TIMESTAMP_MS <= timestamp <= MAX_TIMESTAMP_MS,
        ensures
            r is Some <==> high >= low,
            r is Some ==> r.unwrap() == (Candle { timestamp, open, high, low, close })
                && r.unwrap().wf(),
    {
        if high >= low {
            Some(Candle { timestamp, open, high, low, close })
        } else {
            None
        }
    }
}

/// One row's glyph and the body flag carried to the row below, from
/// the four price coordinates (numerators over the shared positive
/// denominator `d`) at integer row `y`, counted from the bottom.
pub open spec fn spec_glyph_step(o: int, c: int, h: int, l: int, d: int, y: int, in_body: bool)
    -> (char, bool) {
    let mx = if o >= c { o } else { c };
    let mn = if o >= c { c } else { o };
    if h > d * (y - 1) && mx < d * (y + 1) {
        if 2 * h > d * (2 * y + 1) {
            if 4 * (h - mx) < d {
                (UNICODE_BODY, true)
            } else if 4 * (h - mx) < 3 * d {
                if in_body {
                    (UNICODE_BODY, true)
                } else {
                    (UNICODE_UP, true)
                }
            } else {
                (UNICODE_WICK, in_body)
            }
        } else if h >= d * y {
            if 4 * (h - mx) < d {
                (UNICODE_HALF_BODY_BOTTOM, in_body)
            } else {
                (UNICODE_HALF_WICK_BOTTOM, in_body)
            }
        } else {
            (UNICODE_VOID, in_body)
        }
    } else if mx >= d * y && mn <= d * y {
        (UNICODE_BODY, true)
    } else if mn > d * (y - 1) && l < d * (y + 1) {
        if 2 * l < d * (2 * y + 1) {
            if 4 * (mn - l) < d {
                (UNICODE_BODY, true)
            } else if 4 * (mn - l) < 3 * d {
                if in_body {
                    (UNICODE_DOWN, false)
                } else {
                    (UNICODE_WICK, in_body)
                }
            } else {
                (UNICODE_WICK, in_body)
            }
        } else if l <= d * (y + 1) {
            if 4 * (mn - l) < d {
                (UNICODE_HALF_BODY_TOP, in_body)
            } else {
                (UNICODE_HALF_WICK_TOP, in_body)
            }
        } else {
            (UNICODE_VOID, in_body)
        }
    } else {
        (UNICODE_VOID, in_body)
    }
}

/// The column of glyphs for rows `y` down to `0`, threading the body
/// flag from row to row.
pub open spec fn spec_column_rec(o: int, c: int, h: int, l: int, d: int, y: int, in_body: bool)
    -> Seq<char>
    decreases y + 1,
        when y >= -1
{
    if y < 0 {
        Seq::empty()
    } else {
        let step = spec_glyph_step(o, c, h, l, d, y, in_body);
        seq![step.0] + spec_column_rec(o, c, h, l, d, y - 1, step.1)
    }
}

/// The rendered glyph column of a candle on an axis, top row first.
pub open spec fn spec_candle_column(candle: Candle, axis: YAxis) -> Seq<char> {
    spec_column_rec(
        axis.spec_calc_y(candle.open).num as int,
        axis.spec_calc_y(candle.close).num as int,
        axis.spec_calc_y(candle.high).num as int,
        axis.spec_calc_y(candle.low).num as int,
        axis.spec_calc_y(candle.open).den as int,
        axis.height as int - 1,
        false,
    )
}

impl Candle {
    /// Renders this candle against an axis: its type and one glyph
    /// per row, top to bottom.
    pub fn render(&self, y_axis: &YAxis) -> (r: (CandleType, Vec<char>))
        requires
            y_axis.min <= y_axis.max,
        ensures
            r.1@ == spec_candle_column(*self, *y_axis),
            r.1@.len() == y_axis.height as int,
            r.0 == (if y_axis.spec_calc_y(self.open).num <= y_axis.spec_calc_y(self.close).num {
                CandleType::Bullish
            } else {
                CandleType::Bearish
            }),
    {
        let o = y_axis.calc_y(self.open);
        let c = y_axis.calc_y(self.close);
        let h = y_axis.calc_y(self.high);
        let l = y_axis.calc_y(self.low);
        let d: i128 = o.den;
        let on: i128 = o.num;
        let cn: i128 = c.num;
        let hn: i128 = h.num;
        let ln: i128 = l.num;
        proof {
            lemma_coord_bounds(*y_axis, self.open);
            lemma_coord_bounds(*y_axis, self.close);
            lemma_coord_bounds(*y_axis, self.high);
            lemma_coord_bounds(*y_axis, self.low);
        }
        let mx: i128 = if on >= cn {
            on
        } else {
            cn
        };
        let mn: i128 = if on >= cn {
            cn
        } else {
            on
        };

        let mut result: Vec<char> = Vec::new();
        let mut is_body: bool = false;
        let mut yi: u16 = y_axis.height;
        while yi > 0
            invariant
                yi <= y_axis.height,
                d == y_axis.spec_calc_y(self.open).den,
                on == y_axis.spec_calc_y(self.open).num,
                cn == y_axis.spec_calc_y(self.close).num,
                hn == y_axis.spec_calc_y(self.high).num,
                ln == y_axis.spec_calc_y(self.low).num,
                mx == (if on >= cn { on } else { cn }),
                mn == (if on >= cn { cn } else { on }),
                1 <= d <= 0x20000000000000000,
                -0x1000000000000000000000 < on < 0x1000000000000000000000,
                -0x1000000000000000000000 < cn < 0x1000000000000000000000,
                -0x1000000000000000000000 < hn < 0x1000000000000000000000,
                -0x1000000000000000000000 < ln < 0x1000000000000000000000,
                result@.len() == y_axis.height as int - yi as int,
                spec_column_rec(on as int, cn as int, hn as int, ln as int, d as int,
                    y_axis.height as int - 1, false) == result@ + spec_column_rec(on as int,
                    cn as int, hn as int, ln as int, d as int, yi as int - 1, is_body),
            decreases yi as int,
        {
            let y: i128 = (yi - 1) as i128;
            proof {
                lemma_glyph_products(d as int, y as int);
            }
            let ghost b0 = is_body;
            let ghost res0 = result@;
            let ghost step = spec_glyph_step(on as int, cn as int, hn as int, ln as int, d as int,
                y as int, is_body);
            let ch: char;
            if hn > d * (y - 1) && mx < d * (y + 1) {
                if 2 * hn > d * (2 * y + 1) {
                    if 4 * (hn - mx) < d {
                        is_body = true;
                        ch = UNICODE_BODY;
                    } else if 4 * (hn - mx) < 3 * d {
                        if is_body {
                            ch = UNICODE_BODY;
                        } else {
                            ch = UNICODE_UP;
                        }
                        is_body = true;
                    } else {
                        ch = UNICODE_WICK;
                    }
                } else if hn >= d * y {
                    if 4 * (hn - mx) < d {
                        ch = UNICODE_HALF_BODY_BOTTOM;
                    } else {
                        ch = UNICODE_HALF_WICK_BOTTOM;
                    }
                } else {
                    ch = UNICODE_VOID;
                }
            } else if mx >= d * y && mn <= d * y {
                is_body = true;
                ch = UNICODE_BODY;
            } else if mn > d * (y - 1) && ln < d * (y + 1) {
                if 2 * ln < d * (2 * y + 1) {
                    if 4 * (mn - ln) < d {
                        is_body = true;
                        ch = UNICODE_BODY;
                    } else if 4 * (mn - ln) < 3 * d {
                        if is_body {
                            is_body = false;
                            ch = UNICODE_DOWN;
                        } else {
                            ch = UNICODE_WICK;
                        }
                    } else {
                        ch = UNICODE_WICK;
                    }
                } else if ln <= d * (y + 1) {
                    if 4 * (mn - ln) < d {
                        ch = UNICODE_HALF_BODY_TOP;
                    } else {
                        ch = UNICODE_HALF_WICK_TOP;
                    }
                } else {
                    ch = UNICODE_VOID;
                }
            } else {
                ch = UNICODE_VOID;
            }
            assert(ch == step.0 && is_body == step.1);
            result.push(ch);
            proof {
                assert(spec_column_rec(on as int, cn as int, hn as int, ln as int, d as int,
                    y as int, b0) == seq![step.0] + spec_column_rec(on as int, cn as int,
                    hn as int, ln as int, d as int, y as int - 1, step.1));
                assert(result@ + spec_column_rec(on as int, cn as int, hn as int, ln as int,
                    d as int, y as int - 1, step.1) =~= res0 + spec_column_rec(on as int,
                    cn as int, hn as int, ln as int, d as int, y as int, b0));
            }
            yi = yi - 1;
        }
        assert(result@ =~= result@ + spec_column_rec(on as int, cn as int, hn as int, ln as int,
            d as int, -1, is_body));

        let candle_type = if on <= cn {
            CandleType::Bullish
        } else {
            CandleType::Bearish
        };
        (candle_type, result)
    }
}

/// A pair of vertically adjacent glyphs (upper, lower) that a correct
/// column never contains, such as a full body sitting directly on a
/// glyph that implies the body already ended.
pub open spec fn spec_bad_pair(a: char, b: char) -> bool {
    if a == UNICODE_VOID || b == UNICODE_VOID {
        false
    } else {
        ||| (a == UNICODE_BODY && (b == UNICODE_UP || b == UNICODE_HALF_BODY_BOTTOM || b
            == UNICODE_HALF_WICK_BOTTOM))
        ||| ((a == UNICODE_DOWN || a == UNICODE_HALF_BODY_TOP || a == UNICODE_HALF_WICK_TOP) && b
            == UNICODE_BODY)
        ||| (a == UNICODE_WICK && (b == UNICODE_HALF_BODY_BOTTOM || b == UNICODE_HALF_WICK_BOTTOM))
        ||| ((a == UNICODE_HALF_BODY_TOP || a == UNICODE_HALF_WICK_TOP) && b == UNICODE_WICK)
    }
}

/// How many ink-to-void falls occur among the first `n` entries.
pub open spec fn spec_fall_count_upto(s: Seq<char>, n: int) -> int
    decreases n,
{
    if n <= 1 {
        0
    } else {
        spec_fall_count_upto(s, n - 1) + (if s[n - 2] != UNICODE_VOID && s[n - 1] == UNICODE_VOID {
            1int
        } else {
            0int
        })
    }
}

/// The diagnostic on a rendered column: some ink, at most one
/// contiguous run of it (no void strictly inside), and no disallowed
/// vertical glyph adjacency.
pub open spec fn spec_continuous_graph(s: Seq<char>) -> bool {
    if forall|i: int| 0 <= i < s.len() ==> s[i] == UNICODE_VOID {
        false
    } else if s.len() <= 1 {
        true
    } else {
        let t = s.push(UNICODE_VOID);
        &&& spec_fall_count_upto(t, t.len() as int) <= 1
        &&& forall|i: int| 0 <= i < t.len() - 1 ==> !spec_bad_pair(#[trigger] t[i], t[i + 1])
    }
}

/// Checks a rendered glyph column for the continuity diagnostic.
pub fn test_continuous_graph(chars: &Vec<char>) -> (r: bool)
    ensures
        r == spec_continuous_graph(chars@),
{
    let mut all_void = true;
    let mut i: usize = 0;
    while i < chars.len()
        invariant
            i <= chars@.len(),
            all_void == (forall|j: int| 0 <= j < i as int ==> chars@[j] == UNICODE_VOID),
        decreases chars@.len() - i,
    {
        if chars[i] != UNICODE_VOID {
            all_void = false;
        }
        i = i + 1;
    }
    if all_void {
        return false;
    }
    if chars.len() <= 1 {
        return true;
    }

    let mut t: Vec<char> = Vec::new();
    let mut i: usize = 0;
    while i < chars.len()
        invariant
            i <= chars@.len(),
            t@ == chars@.subrange(0, i as int),
        decreases chars@.len() - i,
    {
        t.push(chars[i]);
        i = i + 1;
        assert(chars@.subrange(0, i as int) =~= chars@.subrange(0, i - 1) + seq![chars@[i - 1]]);
    }
    assert(chars@.subrange(0, chars@.len() as int) =~= chars@);
    t.push(UNICODE_VOID);
    assert(t@ =~= chars@.push(UNICODE_VOID));

    let mut falls: usize = 0;
    let mut n: usize = 1;
    while n < t.len()
        invariant
            1 <= n <= t@.len(),
            falls <= n,
            falls as int == spec_fall_count_upto(t@, n as int),
        decreases t@.len() - n,
    {
        if t[n - 1] != UNICODE_VOID && t[n] == UNICODE_VOID {
            falls = falls + 1;
        }
        n = n + 1;
    }
    if falls > 1 {
        return false;
    }

    let mut i: usize = 0;
    while i < t.len() - 1
        invariant
            t@.len() >= 2,
            i <= t@.len() - 1,
            t@ == chars@.push(UNICODE_VOID),
            chars@.len() > 1,
            !(forall|j: int| 0 <= j < chars@.len() ==> chars@[j] == UNICODE_VOID),
            spec_fall_count_upto(t@, t@.len() as int) <= 1,
            forall|j: int| 0 <= j < i as int ==> !spec_bad_pair(#[trigger] t@[j], t@[j + 1]),
        decreases t@.len() - i,
    {
        let a = t[i];
        let b = t[i + 1];
        let bad = if a == UNICODE_VOID || b == UNICODE_VOID {
            false
        } else if a == UNICODE_BODY && (b == UNICODE_UP || b == UNICODE_HALF_BODY_BOTTOM || b
            == UNICODE_HALF_WICK_BOTTOM) {
            true
        } else if (a == UNICODE_DOWN || a == UNICODE_HALF_BODY_TOP || a == UNICODE_HALF_WICK_TOP)
            && b == UNICODE_BODY {
            true
        } else if a == UNICODE_WICK && (b == UNICODE_HALF_BODY_BOTTOM || b
            == UNICODE_HALF_WICK_BOTTOM) {
            true
        } else if (a == UNICODE_HALF_BODY_TOP || a == UNICODE_HALF_WICK_TOP) && b == UNICODE_WICK {
            true
        } else {
            false
        };
        assert(bad == spec_bad_pair(t@[i as int], t@[i as int + 1]));
        if bad {
            return false;
        }
        i = i + 1;
    }
    true
}

/// A row shows ink exactly when it meets the candle's vertical
/// extent: `low < y + 1` and `y <= high` in row coordinates.  The
/// body flag never decides between ink and void.
proof fn lemma_glyph_void(o: int, c: int, h: int, l: int, d: int, y: int, in_body: bool)
    requires
        1 <= d,
        l <= (if o >= c { c } else { o }),
        (if o >= c { o } else { c }) <= h,
    ensures
        (spec_glyph_step(o, c, h, l, d, y, in_body).0 == UNICODE_VOID) <==> !(l < d * (y + 1)
            && d * y <= h),
{
    assert((d * (y + 1) == d * y + d) && (d * (y - 1) == d * y - d) && (d * (2 * y + 1) == 2 * (d
        * y) + d)) by (nonlinear_arith);
}

/// Glyph-column contiguity: in the rendered column of a valid candle
/// whose open and close lie between its low and high, no void glyph
/// stands strictly between two non-void glyphs.
pub proof fn lemma_column_contiguous(candle: Candle, axis: YAxis, i: int, j: int, k: int)
    requires
        axis.min <= axis.max,
        candle.low <= candle.open <= candle.high,
        candle.low <= candle.close <= candle.high,
        0 <= i < j < k < spec_candle_column(candle, axis).len(),
        spec_candle_column(candle, axis)[i] != UNICODE_VOID,
        spec_candle_column(candle, axis)[k] != UNICODE_VOID,
    ensures
        spec_candle_column(candle, axis)[j] != UNICODE_VOID,
{
    let o = axis.spec_calc_y(candle.open).num as int;
    let c = axis.spec_calc_y(candle.close).num as int;
    let h = axis.spec_calc_y(candle.high).num as int;
    let l = axis.spec_calc_y(candle.low).num as int;
    let d = axis.spec_calc_y(candle.open).den as int;
    let top = axis.height as int - 1;
    lemma_coord_order(candle, axis);
    lemma_column_len(o, c, h, l, d, top, false);
    lemma_column_void_at(o, c, h, l, d, top, false, i);
    lemma_column_void_at(o, c, h, l, d, top, false, j);
    lemma_column_void_at(o, c, h, l, d, top, false, k);
    let yi = top - i;
    let yj = top - j;
    let yk = top - k;
    assert(l < d * (yk + 1) && d * yi <= h);
    assert(d * yj <= d * yi && d * (yk + 1) <= d * (yj + 1)) by (nonlinear_arith)
        requires
            d >= 1,
            yj <= yi,
            yk <= yj,
    ;
}

/// Monotone scaling keeps the price order in row coordinates.
proof fn lemma_coord_order(candle: Candle, axis: YAxis)
    requires
        axis.min <= axis.max,
        candle.low <= candle.open <= candle.high,
        candle.low <= candle.close <= candle.high,
    ensures
        axis.spec_calc_y(candle.low).num <= axis.spec_calc_y(candle.open).num,
        axis.spec_calc_y(candle.low).num <= axis.spec_calc_y(candle.close).num,
        axis.spec_calc_y(candle.open).num <= axis.spec_calc_y(candle.high).num,
        axis.spec_calc_y(candle.close).num <= axis.spec_calc_y(candle.high).num,
        axis.spec_calc_y(candle.open).den == axis.spec_calc_y(candle.close).den,
        axis.spec_calc_y(candle.open).den == axis.spec_calc_y(candle.high).den,
        axis.spec_calc_y(candle.open).den == axis.spec_calc_y(candle.low).den,
        axis.spec_calc_y(candle.open).den >= 1,
{
    if axis.min < axis.max {
        lemma_calc_y_mono(axis, candle.low, candle.open);
        lemma_calc_y_mono(axis, candle.low, candle.close);
        lemma_calc_y_mono(axis, candle.open, candle.high);
        lemma_calc_y_mono(axis, candle.close, candle.high);
    }
}

/// `calc_y` is monotone in the value.
proof fn lemma_calc_y_mono(axis: YAxis, a: i64, b: i64)
    requires
        axis.min < axis.max,
        a <= b,
    ensures
        axis.spec_calc_y(a).num <= axis.spec_calc_y(b).num,
{
    crate::y_axis::lemma_calc_y_linear(axis, a);
    crate::y_axis::lemma_calc_y_linear(axis, b);
    assert((a - axis.min) * axis.height <= (b - axis.min) * axis.height) by (nonlinear_arith)
        requires
            a <= b,
            axis.height >= 0,
    ;
}

/// The column has one glyph per row.
proof fn lemma_column_len(o: int, c: int, h: int, l: int, d: int, y: int, in_body: bool)
    requires
        y >= -1,
    ensures
        spec_column_rec(o, c, h, l, d, y, in_body).len() == y + 1,
    decreases y + 1,
{
    if y >= 0 {
        lemma_column_len(o, c, h, l, d, y - 1, spec_glyph_step(o, c, h, l, d, y, in_body).1);
    }
}

/// Entry `idx` of the column is void exactly when row `y - idx` lies
/// outside the candle's vertical extent.
proof fn lemma_column_void_at(o: int, c: int, h: int, l: int, d: int, y: int, in_body: bool,
    idx: int)
    requires
        1 <= d,
        l <= (if o >= c { c } else { o }),
        (if o >= c { o } else { c }) <= h,
        0 <= idx <= y,
    ensures
        (spec_column_rec(o, c, h, l, d, y, in_body)[idx] == UNICODE_VOID) <==> !(l < d * (y - idx
            + 1) && d * (y - idx) <= h),
    decreases idx,
{
    let step = spec_glyph_step(o, c, h, l, d, y, in_body);
    lemma_column_len(o, c, h, l, d, y - 1, step.1);
    if idx == 0 {
        lemma_glyph_void(o, c, h, l, d, y, in_body);
    } else {
        lemma_column_void_at(o, c, h, l, d, y - 1, step.1, idx - 1);
    }
}

/// Row coordinates produced by `calc_y` stay well inside `i128`.
proof fn lemma_coord_bounds(axis: YAxis, v: i64)
    requires
        axis.min <= axis.max,
    ensures
        1 <= axis.spec_calc_y(v).den <= 0x20000000000000000,
        -0x1000000000000000000000 < axis.spec_calc_y(v).num < 0x1000000000000000000000,
{
    if axis.min < axis.max {
        assert(-0x1000000000000000000000 < (v - axis.min) * axis.height
            < 0x1000000000000000000000) by (nonlinear_arith)
            requires
                -0x20000000000000000 < v - axis.min < 0x20000000000000000,
                0 <= axis.height < 0x10000,
        ;
    }
}

/// The row-threshold products all fit in `i128`.
proof fn lemma_glyph_products(d: int, y: int)
    requires
        1 <= d <= 0x20000000000000000,
        0 <= y <= 65535,
    ensures
        -0x100000000000000000000000 < d * (y - 1) < 0x100000000000000000000000,
        0 <= d * y < 0x100000000000000000000000,
        0 < d * (y + 1) < 0x100000000000000000000000,
        0 < d * (2 * y + 1) < 0x100000000000000000000000,
        d * (y + 1) == d * y + d,
        d * (y - 1) == d * y - d,
        d * (2 * y + 1) == 2 * (d * y) + d,
{
    assert((-0x100000000000000000000000 < d * (y - 1) < 0x100000000000000000000000) && (0 <= d
        * y < 0x100000000000000000000000) && (0 < d * (y + 1) < 0x100000000000000000000000) && (0
        < d * (2 * y + 1) < 0x100000000000000000000000) && (d * (y + 1) == d * y + d) && (d * (y
        - 1) == d * y - d) && (d * (2 * y + 1) == 2 * (d * y) + d)) by (nonlinear_arith)
        requires
            1 <= d <= 0x20000000000000000,
            0 <= y <= 65535,
    ;
}

} // verus!
