//! The value axis: fixed-point number formatting, tick selection and
//! per-row label rendering.
//!
//! Prices are carried as integer micro-units (one unit is `1_000_000`
//! micros).  Scales and tick values are exact rationals over those
//! integers, so every label and every row decision below is computed
//! and specified without rounding drift.

use vstd::prelude::*;

use crate::utils::{
    chars_to_string, lemma_dec_digits_len, lemma_dec_digits_len_bound, lemma_pow10_37_value,
    lemma_pow10_6_value, lemma_pow10_mono, lemma_pow10_pos, lemma_repeat_char_len, pow10_i128,
    pow10_u128, push_dec_digits, push_repeat_char, round_half_away, sat_i32, spec_dec_digits,
    spec_pad_left, spec_pow10, spec_repeat_char, spec_round_half_away, spec_sat_i32,
    spec_trunc_div, trunc_div_i128,
};

verus! {

/// One unit of value is this many micro-units.
pub const MICROS_PER_UNIT: i64 = 1_000_000;

/// Right-aligned fixed-point rendering: `precision` is the minimum
/// field width, `scale` the number of fractional digits.
#[derive(Debug, Clone, Copy, PartialEq, Eq, Structural)]
pub struct Numeric {
    pub precision: usize,
    pub scale: usize,
}

/// Fractional digits beyond this resolution render as zeros.
pub const MAX_RENDERED_SCALE: usize = 12;

/// The digits of a value `num / den` micro-units rounded to `sc`
/// fractional digits (in units), as an integer in units of `10^-sc`.
pub open spec fn spec_scaled_value(num: int, den: int, sc: nat) -> int {
    if sc <= 6 {
        spec_round_half_away(num, den * spec_pow10((6 - sc) as nat))
    } else {
        spec_round_half_away(num * spec_pow10((sc - 6) as nat), den)
    }
}

/// The unpadded decimal rendering of `v` (in units of `10^-sc`) with
/// `scale >= sc` fractional digits: sign, integer digits, and - when
/// `scale` is positive - a point followed by the fractional digits,
/// zero-filled beyond the resolution `sc`.
pub open spec fn spec_signed_dec(v: int, scale: nat, sc: nat) -> Seq<char>
    recommends
        sc <= scale,
{
    let sign: Seq<char> = if v < 0 { seq!['-'] } else { Seq::empty() };
    let m = (if v < 0 { -v } else { v }) as nat;
    if sc == 0 {
        if scale == 0 {
            sign + spec_dec_digits(m)
        } else {
            sign + spec_dec_digits(m) + seq!['.'] + spec_repeat_char('0', scale)
        }
    } else {
        sign + spec_dec_digits(m / spec_pow10(sc)) + seq!['.'] + spec_pad_left(
            spec_dec_digits(m % spec_pow10(sc)),
            '0',
            sc,
        ) + spec_repeat_char('0', (scale - sc) as nat)
    }
}

/// The full fixed-point rendering of the value `num / den` micro-units:
/// rounded to `scale` fractional digits (at most `MAX_RENDERED_SCALE`
/// of them significant, ties away from zero) and left-padded with
/// spaces to at least `precision` characters.
pub open spec fn spec_format_rat(num: int, den: int, precision: nat, scale: nat) -> Seq<char> {
    let sc: nat = if scale <= MAX_RENDERED_SCALE as nat {
        scale
    } else {
        MAX_RENDERED_SCALE as nat
    };
    let q = spec_scaled_value(num, den, sc);
    spec_pad_left(spec_signed_dec(q, scale, sc), ' ', precision)
}

/// Renders `num / den` micro-units as text.  The bounds admit every
/// value the axis engines produce.
#[verifier::rlimit(100)]
pub(crate) fn format_rat(num: i128, den: i128, precision: usize, scale: usize) -> (v: Vec<char>)
    requires
        1 <= den <= 200_000_000_000,
        -10_000_000_000_000_000_000_000_000_000_000 <= num <= 10_000_000_000_000_000_000_000_000_000_000,
    ensures
        v@ == spec_format_rat(num as int, den as int, precision as nat, scale as nat),
        v@.len() <= precision + scale + 50,
{
    let sc: usize = if scale <= MAX_RENDERED_SCALE {
        scale
    } else {
        MAX_RENDERED_SCALE
    };
    let q: i128 = if sc <= 6 {
        let p = pow10_i128(6 - sc);
        proof {
            lemma_pow10_mono((6 - sc) as nat, 6);
            lemma_pow10_6_value();
            assert(1 <= den * p <= 200_000_000_000_000_000) by (nonlinear_arith)
                requires
                    1 <= den <= 200_000_000_000,
                    1 <= p <= 1000000,
            ;
        }
        round_half_away(num, den * p)
    } else {
        let p = pow10_i128(sc - 6);
        proof {
            lemma_pow10_mono((sc - 6) as nat, 6);
            lemma_pow10_6_value();
            assert(-0x20000000000000000000000000000000 < num * p
                < 0x20000000000000000000000000000000) by (nonlinear_arith)
                requires
                    -10_000_000_000_000_000_000_000_000_000_000 <= num
                        <= 10_000_000_000_000_000_000_000_000_000_000,
                    1 <= p <= 1000000,
            ;
        }
        round_half_away(num * p, den)
    };

    let ghost spec_out = spec_signed_dec(q as int, scale as nat, sc as nat);

    let mut digits: Vec<char> = Vec::new();
    if q < 0 {
        digits.push('-');
    }
    let m: u128 = if q < 0 {
        (-q) as u128
    } else {
        q as u128
    };
    assert(m == (if (q as int) < 0 { -(q as int) } else { q as int }));

    if sc == 0 {
        push_dec_digits(m, &mut digits);
        if scale > 0 {
            digits.push('.');
            push_repeat_char('0', scale, &mut digits);
        }
        assert(digits@ == spec_out);
    } else {
        let p = pow10_u128(sc);
        push_dec_digits(m / p, &mut digits);
        digits.push('.');
        let mut fd: Vec<char> = Vec::new();
        push_dec_digits(m % p, &mut fd);
        proof {
            lemma_pow10_pos(sc as nat);
            lemma_dec_digits_len_bound((m % p) as nat, sc as nat);
        }
        if fd.len() < sc {
            push_repeat_char('0', sc - fd.len(), &mut digits);
        }
        digits.append(&mut fd);
        push_repeat_char('0', scale - sc, &mut digits);
        assert(digits@ == spec_out);
    }

    // left-pad with spaces to the field width
    let mut out: Vec<char> = Vec::new();
    if digits.len() < precision {
        push_repeat_char(' ', precision - digits.len(), &mut out);
    }
    out.append(&mut digits);
    assert(out@ == spec_pad_left(spec_out, ' ', precision as nat));

    proof {
        lemma_format_len_bound(num as int, den as int, precision as nat, scale as nat);
    }
    out
}

/// The rendered text is never much wider than the field plus the digits
/// asked for.
proof fn lemma_format_len_bound(num: int, den: int, precision: nat, scale: nat)
    requires
        1 <= den,
        -10_000_000_000_000_000_000_000_000_000_000 <= num
            <= 10_000_000_000_000_000_000_000_000_000_000,
    ensures
        spec_format_rat(num, den, precision, scale).len() <= precision + scale + 50,
{
    let sc: nat = if scale <= MAX_RENDERED_SCALE as nat {
        scale
    } else {
        MAX_RENDERED_SCALE as nat
    };
    let q = spec_scaled_value(num, den, sc);
    let s = spec_signed_dec(q, scale, sc);
    lemma_scaled_value_bound(num, den, sc);
    let m = (if q < 0 { -q } else { q }) as nat;
    lemma_pow10_37_value();
    assert(m < spec_pow10(38));
    lemma_pow10_pos(sc);
    if sc == 0 {
        lemma_dec_digits_len_bound(m, 38);
        lemma_repeat_char_len('0', scale);
        assert(s.len() <= 1 + 38 + 1 + scale);
    } else {
        lemma_dec_digits_len_bound(m / spec_pow10(sc), 38);
        lemma_dec_digits_len_bound(m % spec_pow10(sc), sc);
        lemma_dec_digits_len(m % spec_pow10(sc));
        lemma_repeat_char_len('0', (sc - spec_dec_digits(m % spec_pow10(sc)).len()) as nat);
        lemma_repeat_char_len('0', (scale - sc) as nat);
        assert(spec_pad_left(spec_dec_digits(m % spec_pow10(sc)), '0', sc).len() <= sc);
        assert(s.len() <= 1 + 38 + 1 + sc + (scale - sc));
    }
    if s.len() >= precision {
        assert(spec_format_rat(num, den, precision, scale) == s);
    } else {
        lemma_repeat_char_len(' ', (precision - s.len()) as nat);
    }
}

/// The rounded scaled value stays well inside `i128`.
proof fn lemma_scaled_value_bound(num: int, den: int, sc: nat)
    requires
        1 <= den,
        -10_000_000_000_000_000_000_000_000_000_000 <= num
            <= 10_000_000_000_000_000_000_000_000_000_000,
        sc <= 12,
    ensures
        -spec_pow10(38) < spec_scaled_value(num, den, sc) < spec_pow10(38),
{
    lemma_pow10_37_value();
    if sc <= 6 {
        lemma_pow10_pos((6 - sc) as nat);
        assert(den * spec_pow10((6 - sc) as nat) >= 1) by (nonlinear_arith)
            requires
                den >= 1,
                spec_pow10((6 - sc) as nat) >= 1,
        ;
        lemma_round_bound(num, den * spec_pow10((6 - sc) as nat));
    } else {
        lemma_pow10_pos((sc - 6) as nat);
        lemma_pow10_mono((sc - 6) as nat, 6);
        lemma_pow10_6_value();
        assert(-10_000_000_000_000_000_000_000_000_000_000_000_000 <= num * spec_pow10(
            (sc - 6) as nat,
        ) <= 10_000_000_000_000_000_000_000_000_000_000_000_000) by (nonlinear_arith)
            requires
                -10_000_000_000_000_000_000_000_000_000_000 <= num
                    <= 10_000_000_000_000_000_000_000_000_000_000,
                1 <= spec_pow10((sc - 6) as nat) <= 1000000,
        ;
        lemma_round_bound(num * spec_pow10((sc - 6) as nat), den);
    }
}

/// Rounding a quotient never exceeds the numerator's magnitude plus one.
proof fn lemma_round_bound(a: int, b: int)
    requires
        b >= 1,
    ensures
        a >= 0 ==> 0 <= spec_round_half_away(a, b) <= a + 1,
        a < 0 ==> -(-a) - 1 <= spec_round_half_away(a, b) <= 0,
{
    if a >= 0 {
        assert(a / b <= a) by (nonlinear_arith)
            requires
                a >= 0,
                b >= 1,
        ;
        assert(a / b >= 0) by (nonlinear_arith)
            requires
                a >= 0,
                b >= 1,
        ;
    } else {
        let m = -a;
        assert(m / b <= m) by (nonlinear_arith)
            requires
                m >= 0,
                b >= 1,
        ;
        assert(m / b >= 0) by (nonlinear_arith)
            requires
                m >= 0,
                b >= 1,
        ;
    }
}

impl Numeric {
    /// Widths this wide cover any terminal; larger ones are refused so
    /// that reserved-column arithmetic stays in `u16`.
    pub open spec fn wf(self) -> bool {
        self.precision <= 16384 && self.scale <= 16384
    }

    pub fn new(precision: usize, scale: usize) -> (r: Self)
        ensures
            r == (Numeric { precision, scale }),
    {
        Numeric { precision, scale }
    }

    /// What `format` returns for a value of `micros` micro-units.
    pub open spec fn spec_format(self, micros: i64) -> Seq<char> {
        spec_format_rat(micros as int, 1, self.precision as nat, self.scale as nat)
    }

    /// Renders a value (in micro-units) right-aligned in the field.
    pub fn format(&self, value: i64) -> (s: String)
        ensures
            s@ == self.spec_format(value),
            s@.len() <= self.precision + self.scale + 50,
    {
        let v = format_rat(value as i128, 1, self.precision, self.scale);
        chars_to_string(&v)
    }
}

impl Default for Numeric {
    /// Nine columns with three fractional digits.
    fn default() -> (r: Self)
        ensures
            r == (Numeric { precision: 9, scale: 3 }),
            r.wf(),
    {
        Numeric { precision: 9, scale: 3 }
    }
}

/// How many decimal digits `n` has (one for zero).
pub open spec fn spec_num_digits(n: nat) -> nat {
    spec_dec_digits(n).len()
}

/// `n` with its trailing decimal zeros removed (zero stays zero).
pub open spec fn spec_strip_zeros(n: nat) -> nat
    decreases n,
{
    if n == 0 {
        0
    } else if n % 10 == 0 {
        spec_strip_zeros(n / 10)
    } else {
        n
    }
}

fn num_digits(n: u128) -> (r: usize)
    ensures
        r == spec_num_digits(n as nat),
        1 <= r <= 39,
    decreases n,
{
    proof {
        lemma_pow10_37_value();
        lemma_dec_digits_len_bound(n as nat, 39);
    }
    if n < 10 {
        1
    } else {
        let d = num_digits(n / 10);
        proof {
            lemma_dec_digits_len(n as nat / 10);
        }
        d + 1
    }
}

fn strip_zeros(n: u128) -> (r: u128)
    ensures
        r == spec_strip_zeros(n as nat),
    decreases n,
{
    if n == 0 {
        0
    } else if n % 10 == 0 {
        strip_zeros(n / 10)
    } else {
        n
    }
}

/// The fractional-digit count derived from a value range: the number
/// of significant decimal digits of the range's magnitude (at least
/// one; one more for the sign of an inverted range).
pub open spec fn spec_auto_scale(min: i64, max: i64) -> nat {
    let d = max as int - min as int;
    let neg: nat = if d < 0 { 1 } else { 0 };
    let mag = (if d < 0 { -d } else { d }) as nat;
    if mag == 0 {
        1
    } else {
        let sd = spec_num_digits(spec_strip_zeros(mag));
        if sd >= 2 {
            sd + neg
        } else {
            1 + neg
        }
    }
}

/// The field width derived from the largest visible magnitude: enough
/// columns for its integer digits (or for the leading zeros of a
/// sub-one value) plus the fractional digits.
pub open spec fn spec_auto_precision(max: i64, scale: nat) -> nat {
    let m = (if max < 0 { -(max as int) } else { max as int }) as nat;
    if m == 0 {
        2 + scale
    } else {
        let d = spec_num_digits(m);
        if m >= 1000000 {
            if spec_strip_zeros(m) == 1 {
                ((d - 7) + scale) as nat
            } else {
                ((d - 6) + scale) as nat
            }
        } else {
            (2 + (7 - d) + scale) as nat
        }
    }
}

impl Numeric {
    /// The formatting spec derived from the visible value range, both
    /// arguments in micro-units.
    pub open spec fn spec_auto_from_min_max(min: i64, max: i64) -> Numeric {
        let scale = spec_auto_scale(min, max);
        Numeric {
            precision: spec_auto_precision(max, scale) as usize,
            scale: scale as usize,
        }
    }

    /// Derives width and fractional digits from the value range.
    pub fn auto_from_min_max(min: i64, max: i64) -> (r: Numeric)
        ensures
            r == Numeric::spec_auto_from_min_max(min, max),
            r.wf(),
    {
        proof {
            lemma_auto_wf(min, max);
        }
        let d128: i128 = max as i128 - min as i128;
        let neg: usize = if d128 < 0 {
            1
        } else {
            0
        };
        let mag: u128 = if d128 < 0 {
            (-d128) as u128
        } else {
            d128 as u128
        };
        let scale: usize = if mag == 0 {
            1
        } else {
            let sd = num_digits(strip_zeros(mag));
            if sd >= 2 {
                sd + neg
            } else {
                1 + neg
            }
        };

        let m: u128 = if max < 0 {
            (-(max as i128)) as u128
        } else {
            max as u128
        };
        let precision: usize = if m == 0 {
            2 + scale
        } else {
            let d = num_digits(m);
            if m >= 1000000 {
                proof {
                    lemma_pow10_6_value();
                    lemma_dec_digits_lower(m as nat, 7);
                }
                if strip_zeros(m) == 1 {
                    (d - 7) + scale
                } else {
                    (d - 6) + scale
                }
            } else {
                proof {
                    lemma_pow10_6_value();
                    lemma_dec_digits_len_bound(m as nat, 6);
                }
                2 + (7 - d) + scale
            }
        };
        Numeric { precision, scale }
    }
}

/// The derived formatting spec always fits the width cap.
proof fn lemma_auto_wf(min: i64, max: i64)
    ensures
        Numeric::spec_auto_from_min_max(min, max).wf(),
        spec_auto_scale(min, max) <= 40,
        spec_auto_precision(max, spec_auto_scale(min, max)) <= 100,
{
    let d = max as int - min as int;
    let mag = (if d < 0 { -d } else { d }) as nat;
    lemma_pow10_37_value();
    lemma_pow10_6_value();
    if mag != 0 {
        lemma_strip_le(mag);
        lemma_dec_digits_len_bound(spec_strip_zeros(mag), 39);
    }
    let m = (if max < 0 { -(max as int) } else { max as int }) as nat;
    if m != 0 {
        lemma_dec_digits_len_bound(m, 39);
        lemma_dec_digits_len(m);
        if m >= 1000000 {
            lemma_dec_digits_lower(m, 7);
        } else {
            lemma_dec_digits_len_bound(m, 6);
        }
    }
}

/// Stripping zeros never increases a number.
proof fn lemma_strip_le(n: nat)
    ensures
        spec_strip_zeros(n) <= n,
    decreases n,
{
    if n != 0 && n % 10 == 0 {
        lemma_strip_le(n / 10);
    }
}

/// A number with at least `k` digits' worth of size prints in at
/// least `k` digits.
proof fn lemma_dec_digits_lower(n: nat, k: nat)
    requires
        k >= 1,
        n >= spec_pow10((k - 1) as nat),
    ensures
        spec_dec_digits(n).len() >= k,
    decreases k,
{
    if k >= 2 {
        assert(spec_pow10((k - 1) as nat) == 10 * spec_pow10((k - 2) as nat));
        lemma_pow10_pos((k - 2) as nat);
        assert(n >= 10);
        assert(n / 10 >= spec_pow10((k - 2) as nat));
        lemma_dec_digits_lower(n / 10, (k - 1) as nat);
    } else {
        lemma_dec_digits_len(n);
    }
}

/// The tick-selection strategy of the value axis.
#[derive(Debug, Clone, Copy, PartialEq, Eq, Structural)]
pub enum Grid {
    /// A tick every fourth row, at the exact interpolated value.
    Accurate,
    /// Ticks snapped to human-friendly multiples of a power of ten.
    Readable,
}

impl Default for Grid {
    fn default() -> (r: Self)
        ensures
            r == Grid::Accurate,
    {
        Grid::Accurate
    }
}

/// An exact fractional row coordinate `num / den`, measured in rows up
/// from the bottom of the chart body.
#[derive(Debug, Clone, Copy, PartialEq, Eq, Structural)]
pub struct RowPos {
    pub num: i128,
    pub den: i128,
}

impl RowPos {
    /// A valid coordinate has a positive denominator.
    pub open spec fn wf(self) -> bool {
        self.den >= 1
    }

    /// The coordinate equals the whole number of rows `k`.
    pub open spec fn is_row(self, k: int) -> bool {
        self.num == k * self.den
    }
}

/// The value axis: a resolved formatting spec, a grid strategy, and
/// the visible value range (micro-units) spread over `height` rows.
#[derive(Debug, Clone, Copy, PartialEq, Eq, Structural)]
pub struct YAxis {
    pub numeric: Numeric,
    pub grid: Grid,
    pub height: u16,
    pub min: i64,
    pub max: i64,
}

impl YAxis {
    /// The numeric spec actually used: the explicit one, or the one
    /// derived from the range.
    pub open spec fn spec_resolved_numeric(numeric: Option<Numeric>, min: i64, max: i64) -> Numeric {
        match numeric {
            Some(n) => n,
            None => Numeric::spec_auto_from_min_max(min, max),
        }
    }

    /// The fractional row (from the bottom) where a value of `value`
    /// micro-units falls: `(value - min) / unit` with
    /// `unit = (max - min) / height`.  A degenerate range maps every
    /// value to row zero.
    pub open spec fn spec_calc_y(self, value: i64) -> RowPos {
        if self.min < self.max {
            RowPos {
                num: ((value as int - self.min as int) * self.height as int) as i128,
                den: (self.max as int - self.min as int) as i128,
            }
        } else {
            RowPos { num: 0, den: 1 }
        }
    }

    /// What `estimated_width` returns.
    pub open spec fn spec_estimated_width(numeric: Option<Numeric>, min: i64, max: i64) -> u16 {
        let n = YAxis::spec_resolved_numeric(numeric, min, max);
        let a = n.spec_format(max).len();
        let b = n.spec_format(min).len();
        (((if a >= b { a } else { b }) + 4) as u16)
    }

    /// The columns to reserve for the axis: the widest label of the
    /// two range endpoints plus four columns of decoration.
    pub fn estimated_width(numeric: Option<Numeric>, min: i64, max: i64) -> (r: u16)
        requires
            numeric is Some ==> numeric.unwrap().wf(),
        ensures
            r == YAxis::spec_estimated_width(numeric, min, max),
            r >= 4,
    {
        let n = match numeric {
            Some(n) => n,
            None => Numeric::auto_from_min_max(min, max),
        };
        let fmax = format_rat(max as i128, 1, n.precision, n.scale);
        let fmin = format_rat(min as i128, 1, n.precision, n.scale);
        let widest: usize = if fmax.len() >= fmin.len() {
            fmax.len()
        } else {
            fmin.len()
        };
        proof {
            crate::utils::lemma_repeat_char_len(' ', 0);
            lemma_dec_digits_len(0);
        }
        assert(widest + 4 < 0x10000);
        (widest + 4) as u16
    }

    /// Builds an axis over `[min, max]` micro-units and `height` rows.
    /// An inverted range is a programmer error, excluded up front.
    pub fn new(numeric: Option<Numeric>, grid: Grid, height: u16, min: i64, max: i64) -> (r: Self)
        requires
            min <= max,
            (numeric is Some ==> numeric.unwrap().wf()),
        ensures
            r == (YAxis {
                numeric: YAxis::spec_resolved_numeric(numeric, min, max),
                grid,
                height,
                min,
                max,
            }),
            r.numeric.wf(),
            r.min <= r.max,
    {
        let numeric = match numeric {
            Some(n) => n,
            None => Numeric::auto_from_min_max(min, max),
        };
        YAxis { numeric, grid, height, min, max }
    }

    pub fn height(&self) -> (r: u16)
        ensures
            r == self.height,
    {
        self.height
    }

    /// Maps a value (micro-units) to its exact fractional row.
    pub fn calc_y(&self, value: i64) -> (r: RowPos)
        ensures
            r == self.spec_calc_y(value),
            r.wf(),
    {
        if self.min < self.max {
            proof {
                lemma_calc_y_in_range(*self, value);
            }
            RowPos {
                num: (value as i128 - self.min as i128) * (self.height as i128),
                den: self.max as i128 - self.min as i128,
            }
        } else {
            RowPos { num: 0, den: 1 }
        }
    }
}

/// The products behind `spec_calc_y` stay far inside `i128`.
proof fn lemma_calc_y_in_range(axis: YAxis, v: i64)
    requires
        axis.min < axis.max,
    ensures
        -0x1000000000000000000000 < (v - axis.min) * axis.height < 0x1000000000000000000000,
        axis.spec_calc_y(v).num == (v - axis.min) * axis.height,
        axis.spec_calc_y(v).den == axis.max - axis.min,
{
    assert(-0x1000000000000000000000 < (v - axis.min) * axis.height
        < 0x1000000000000000000000) by (nonlinear_arith)
        requires
            -0x20000000000000000 < v - axis.min < 0x20000000000000000,
            0 <= axis.height < 0x10000,
    ;
}

/// Smallest `p >= 1` with `a * 10^p >= b`, for `1 <= a < b`: the
/// number of decimal shifts that lift the fraction `a / b` to one.
pub open spec fn spec_sub_one_exp(a: int, b: int) -> int
    recommends
        1 <= a < b,
    decreases b - a,
    when 1 <= a < b
{
    if a * 10 >= b {
        1
    } else {
        1 + spec_sub_one_exp(a * 10, b)
    }
}

/// The exponent `t` with `10^t <= unit < 10^(t+1)` - adjusted towards
/// zero for sub-one units that are not exact powers of ten - where
/// `unit = span / (h * 10^6)` in whole units.
pub open spec fn spec_unit_exp(span: int, h: int) -> int
    recommends
        span >= 1,
        h >= 1,
{
    let b = h * 1000000;
    if span >= b {
        spec_num_digits((span / b) as nat) - 1
    } else {
        let p = spec_sub_one_exp(span, b);
        if span * spec_pow10(p as nat) == b {
            -p
        } else {
            -p + 1
        }
    }
}

/// `10^(t+6)` micro-units as an exact fraction (numerator, denominator).
pub open spec fn spec_readable_pow(t: int) -> (int, int) {
    if t + 6 >= 0 {
        (spec_pow10((t + 6) as nat) as int, 1)
    } else {
        (1, spec_pow10((-(t + 6)) as nat) as int)
    }
}

/// The smallest of 1, 5, 10, 20, 50, 100 that is at least `co`.
pub open spec fn spec_readable_mult(co: int) -> int {
    if co <= 1 {
        1
    } else if co <= 5 {
        5
    } else if co <= 10 {
        10
    } else if co <= 20 {
        20
    } else if co <= 50 {
        50
    } else {
        100
    }
}

impl YAxis {
    /// The widest label of the two range endpoints.
    pub open spec fn spec_max_chars(self) -> nat {
        let a = self.numeric.spec_format(self.max).len();
        let b = self.numeric.spec_format(self.min).len();
        if a >= b {
            a
        } else {
            b
        }
    }

    /// An unlabelled axis row: blank field and a plain axis line.
    pub open spec fn spec_blank_row(self) -> Seq<char> {
        seq![' '] + spec_repeat_char(' ', self.spec_max_chars()) + seq![' ', '│', ' ']
    }

    /// A labelled axis row: the formatted value and a tick.
    pub open spec fn spec_label_row(self, num: int, den: int) -> Seq<char> {
        seq![' '] + spec_format_rat(
            num,
            den,
            self.numeric.precision as nat,
            self.numeric.scale as nat,
        ) + seq![' ', '├', ' ']
    }

    /// Row `i` (from the top) under the accurate strategy: every
    /// fourth row carries the exact interpolated value
    /// `max - unit * i`.
    pub open spec fn spec_row_accurate(self, i: int) -> Seq<char> {
        if i % 4 == 0 {
            self.spec_label_row(
                self.max as int * self.height as int - (self.max - self.min) * i,
                self.height as int,
            )
        } else {
            self.spec_blank_row()
        }
    }

    /// The snapped multiple (numerator over `ad`) labelling row `i`
    /// under the readable strategy, if one falls inside the row's
    /// value band: the candidate multiples nearest the band are
    /// checked against the band and the one closest to the band
    /// midpoint wins, lower value on ties.
    pub open spec fn spec_readable_mark(self, i: int) -> Option<int> {
        let span = self.max as int - self.min as int;
        let h = self.height as int;
        let t = spec_unit_exp(span, h);
        let rn = spec_readable_pow(t).0;
        let rd = spec_readable_pow(t).1;
        let co = 4 * span * rd / (h * rn);
        let m = spec_readable_mult(co);
        let am = m * rn;
        let ad = rd;
        let hi_n = self.max as int * h - span * i;
        let lo_n = hi_n - span;
        let c_lo = spec_sat_i32(spec_trunc_div(lo_n * ad, h * am));
        let c_hi = spec_sat_i32(spec_trunc_div(hi_n * ad, h * am));
        let lo_ok = lo_n * ad <= c_lo * am * h <= hi_n * ad;
        let hi_ok = lo_n * ad <= c_hi * am * h <= hi_n * ad;
        let mid2 = (hi_n + lo_n) * ad;
        let d_lo = if c_lo * am * 2 * h >= mid2 {
            c_lo * am * 2 * h - mid2
        } else {
            mid2 - c_lo * am * 2 * h
        };
        let d_hi = if c_hi * am * 2 * h >= mid2 {
            c_hi * am * 2 * h - mid2
        } else {
            mid2 - c_hi * am * 2 * h
        };
        if c_lo < c_hi && lo_ok && hi_ok {
            if d_lo <= d_hi {
                Some(c_lo * am)
            } else {
                Some(c_hi * am)
            }
        } else if lo_ok {
            Some(c_lo * am)
        } else if c_lo < c_hi && hi_ok {
            Some(c_hi * am)
        } else {
            None
        }
    }

    /// Row `i` under the readable strategy.  A degenerate range labels
    /// only the top row, with the single visible value.
    pub open spec fn spec_row_readable(self, i: int) -> Seq<char> {
        if self.min == self.max {
            if i == 0 {
                self.spec_label_row(self.max as int, 1)
            } else {
                self.spec_blank_row()
            }
        } else {
            match self.spec_readable_mark(i) {
                Some(num) => self.spec_label_row(num, spec_readable_pow(
                    spec_unit_exp(self.max as int - self.min as int, self.height as int),
                ).1),
                None => self.spec_blank_row(),
            }
        }
    }

    /// Row `i` of the rendered axis, top row first.
    pub open spec fn spec_row(self, i: int) -> Seq<char> {
        match self.grid {
            Grid::Accurate => self.spec_row_accurate(i),
            Grid::Readable => self.spec_row_readable(i),
        }
    }
}

fn sub_one_exp(a: i128, b: i128) -> (p: usize)
    requires
        1 <= a < b,
        b <= 100_000_000_000_000_000,
    ensures
        p == spec_sub_one_exp(a as int, b as int),
        1 <= p <= 17,
        a * spec_pow10(p as nat) >= b,
    decreases b - a,
{
    if a * 10 >= b {
        proof {
            assert(spec_pow10(1) == 10 * spec_pow10(0));
        }
        1
    } else {
        let p0 = sub_one_exp(a * 10, b);
        proof {
            assert((a * 10) * spec_pow10(p0 as nat) == a * spec_pow10((p0 + 1) as nat))
                by (nonlinear_arith)
                requires
                    spec_pow10((p0 + 1) as nat) == 10 * spec_pow10(p0 as nat),
            ;
            // p0 cannot be 17: ten shifts of a*10 from below b stay below 10^17
            if p0 >= 17 {
                lemma_pow10_mono(17, p0 as nat);
                lemma_pow10_37_value();
                lemma_sub_one_exp_min(a as int * 10, b as int);
                assert((a * 10) * spec_pow10((p0 - 1) as nat) < b);
                assert(spec_pow10((p0 - 1) as nat) >= spec_pow10(16)) by {
                    lemma_pow10_mono(16, (p0 - 1) as nat);
                };
                assert(spec_pow10(16) * 10 >= 100_000_000_000_000_000) by {
                    lemma_pow10_37_value();
                    assert(spec_pow10(17) == 10 * spec_pow10(16));
                };
                assert((a * 10) * spec_pow10((p0 - 1) as nat) >= 10 * spec_pow10((p0 - 1) as nat))
                    by (nonlinear_arith)
                    requires
                        a >= 1,
                        spec_pow10((p0 - 1) as nat) >= 1,
                ;
            }
        }
        p0 + 1
    }
}

/// Below the shift that lifts `a / b` to one, every shift stays short.
proof fn lemma_sub_one_exp_min(a: int, b: int)
    requires
        1 <= a < b,
    ensures
        a * spec_pow10((spec_sub_one_exp(a, b) - 1) as nat) < b,
    decreases b - a,
{
    if a * 10 >= b {
        assert(spec_sub_one_exp(a, b) == 1);
        assert(spec_pow10(0) == 1);
        assert(a * spec_pow10(0) == a) by (nonlinear_arith)
            requires
                spec_pow10(0) == 1,
        ;
    } else {
        lemma_sub_one_exp_min(a * 10, b);
        lemma_sub_one_exp_pos(a * 10, b);
        let p0 = spec_sub_one_exp(a * 10, b);
        assert(spec_sub_one_exp(a, b) == 1 + p0);
        assert(spec_pow10(p0 as nat) == 10 * spec_pow10((p0 - 1) as nat));
        assert((a * 10) * spec_pow10((p0 - 1) as nat) == a * spec_pow10(p0 as nat))
            by (nonlinear_arith)
            requires
                p0 >= 1,
                spec_pow10(p0 as nat) == 10 * spec_pow10((p0 - 1) as nat),
        ;
    }
}

/// The shift count is always at least one.
proof fn lemma_sub_one_exp_pos(a: int, b: int)
    requires
        1 <= a < b,
    ensures
        spec_sub_one_exp(a, b) >= 1,
    decreases b - a,
{
    if a * 10 < b {
        lemma_sub_one_exp_pos(a * 10, b);
    }
}

fn unit_exp(span: i128, h: i128) -> (t: i64)
    requires
        1 <= span <= 0x20000000000000000,
        1 <= h <= 65535,
    ensures
        t as int == spec_unit_exp(span as int, h as int),
        -17 <= t <= 13,
{
    let b: i128 = h * 1000000;
    proof {
        lemma_pow10_37_value();
    }
    if span >= b {
        let q: u128 = (span as u128) / (b as u128);
        proof {
            assert(span as int / (b as int) < 0x5af3107a4000) by (nonlinear_arith)
                requires
                    1000000 <= b <= 65535000000,
                    1 <= span <= 0x20000000000000000,
            ;
            lemma_dec_digits_len_bound(q as nat, 14);
            lemma_dec_digits_len(q as nat);
        }
        let d = num_digits(q);
        (d as i64) - 1
    } else {
        let p = sub_one_exp(span, b);
        let pw = pow10_i128(p);
        proof {
            lemma_pow10_mono(p as nat, 17);
            assert(span * pw <= 65535000000 * 0x16345785d8a0000) by (nonlinear_arith)
                requires
                    1 <= span < 65535000001,
                    1 <= pw <= 0x16345785d8a0000,
            ;
        }
        if span * pw == b {
            -(p as i64)
        } else {
            -(p as i64) + 1
        }
    }
}

impl YAxis {
    /// Renders the axis: one string per row, top row first, each
    /// holding the (possibly blank) label and the axis line.
    pub fn render(&self) -> (rows: Vec<String>)
        requires
            self.numeric.wf(),
            self.min <= self.max,
        ensures
            rows@.len() == self.height as int,
            forall|i: int|
                0 <= i < self.height as int ==> #[trigger] rows@[i]@ == self.spec_row(i),
    {
        let fmax = format_rat(self.max as i128, 1, self.numeric.precision, self.numeric.scale);
        let fmin = format_rat(self.min as i128, 1, self.numeric.precision, self.numeric.scale);
        let max_chars: usize = if fmax.len() >= fmin.len() {
            fmax.len()
        } else {
            fmin.len()
        };
        assert(max_chars == self.spec_max_chars());

        let mut rows: Vec<String> = Vec::new();
        match self.grid {
            Grid::Accurate => {
                let mut i: u16 = 0;
                while i < self.height
                    invariant
                        i <= self.height,
                        self.numeric.wf(),
                        self.min <= self.max,
                        self.grid == Grid::Accurate,
                        max_chars == self.spec_max_chars(),
                        rows@.len() == i as int,
                        forall|j: int| 0 <= j < i as int ==> #[trigger] rows@[j]@ == self.spec_row(j),
                    decreases self.height as int - i as int,
                {
                    let row = if i % 4 == 0 {
                        proof {
                            lemma_accurate_value_bound(*self, i as int);
                        }
                        let num: i128 = self.max as i128 * self.height as i128 - (self.max as i128
                            - self.min as i128) * (i as i128);
                        self.build_label_row(num, self.height as i128)
                    } else {
                        self.build_blank_row(max_chars)
                    };
                    rows.push(row);
                    i = i + 1;
                }
                rows
            },
            Grid::Readable => {
                if self.height == 0 {
                    return rows;
                }
                if self.min == self.max {
                    let mut i: u16 = 0;
                    while i < self.height
                        invariant
                            i <= self.height,
                            self.height >= 1,
                            self.numeric.wf(),
                            self.min == self.max,
                            self.grid == Grid::Readable,
                            max_chars == self.spec_max_chars(),
                            rows@.len() == i as int,
                            forall|j: int|
                                0 <= j < i as int ==> #[trigger] rows@[j]@ == self.spec_row(j),
                        decreases self.height as int - i as int,
                    {
                        let row = if i == 0 {
                            self.build_label_row(self.max as i128, 1)
                        } else {
                            self.build_blank_row(max_chars)
                        };
                        rows.push(row);
                        i = i + 1;
                    }
                    return rows;
                }

                let span: i128 = self.max as i128 - self.min as i128;
                let h: i128 = self.height as i128;
                let t = unit_exp(span, h);
                proof {
                    lemma_pow10_37_value();
                }
                let (rn, rd): (i128, i128) = if t >= -6 {
                    proof {
                        lemma_pow10_mono((t + 6) as nat, 19);
                    }
                    (pow10_i128((t + 6) as usize), 1)
                } else {
                    proof {
                        lemma_pow10_mono((-t - 6) as nat, 11);
                    }
                    (1, pow10_i128((-t - 6) as usize))
                };
                assert(rn == spec_readable_pow(t as int).0);
                assert(rd == spec_readable_pow(t as int).1);
                assert(1 <= rn <= 0x8ac7230489e80000);
                assert(1 <= rd <= 0x174876e800);

                proof {
                    assert((0 <= 4 * (span as int) * (rd as int)) && (4 * (span as int) * (
                    rd as int) < 0x60000000000000000000000000000000) && (1 <= (h as int) * (
                    rn as int)) && ((h as int) * (rn as int)
                        < 0x60000000000000000000000000000000)) by (nonlinear_arith)
                        requires
                            1 <= span as int <= 0x20000000000000000,
                            1 <= rd as int <= 0x174876e800,
                            1 <= h as int <= 65535,
                            1 <= rn as int <= 0x8ac7230489e80000,
                    ;
                }
                let conum: i128 = 4 * span * rd;
                let coden: i128 = h * rn;
                let co: i128 = ((conum as u128) / (coden as u128)) as i128;
                assert(co == 4 * span as int * rd as int / (h as int * rn as int));
                let m: i128 = if co <= 1 {
                    1
                } else if co <= 5 {
                    5
                } else if co <= 10 {
                    10
                } else if co <= 20 {
                    20
                } else if co <= 50 {
                    50
                } else {
                    100
                };
                assert(m == spec_readable_mult(co as int));
                proof {
                    assert(1 <= m * rn <= 100 * 0x8ac7230489e80000) by (nonlinear_arith)
                        requires
                            1 <= m <= 100,
                            1 <= rn <= 0x8ac7230489e80000,
                    ;
                }
                let am: i128 = m * rn;
                let ad: i128 = rd;

                let mut i: u16 = 0;
                while i < self.height
                    invariant
                        i <= self.height,
                        self.height >= 1,
                        self.numeric.wf(),
                        self.min < self.max,
                        self.grid == Grid::Readable,
                        max_chars == self.spec_max_chars(),
                        span == self.max as int - self.min as int,
                        h == self.height as int,
                        1 <= span <= 0x10000000000000000,
                        t as int == spec_unit_exp(span as int, h as int),
                        rn == spec_readable_pow(t as int).0,
                        rd == spec_readable_pow(t as int).1,
                        1 <= rn <= 0x8ac7230489e80000,
                        1 <= rd <= 0x174876e800,
                        co == 4 * span as int * rd as int / (h as int * rn as int),
                        m == spec_readable_mult(co as int),
                        am == m * rn,
                        ad == rd,
                        1 <= am <= 100 * 0x8ac7230489e80000,
                        rows@.len() == i as int,
                        forall|j: int| 0 <= j < i as int ==> #[trigger] rows@[j]@ == self.spec_row(j),
                    decreases self.height as int - i as int,
                {
                    proof {
                        lemma_row_band_bounds(self.max as int, span as int, h as int, i as int);
                        assert(span as int * (i as int + 1) == span as int * (i as int)
                            + span as int) by (nonlinear_arith);
                    }
                    let hi_n: i128 = self.max as i128 * h - span * i as i128;
                    let lo_n: i128 = hi_n - span;
                    proof {
                        lemma_readable_products(hi_n as int, lo_n as int, am as int, ad as int,
                            h as int);
                    }
                    let ham: i128 = h * am;
                    let c_lo: i128 = sat_i32(trunc_div_i128(lo_n * ad, ham));
                    let c_hi: i128 = sat_i32(trunc_div_i128(hi_n * ad, ham));
                    proof {
                        lemma_readable_cand_products(c_lo as int, c_hi as int, am as int,
                            ad as int, h as int, hi_n as int, lo_n as int);
                    }
                    let lo_ok = lo_n * ad <= c_lo * am * h && c_lo * am * h <= hi_n * ad;
                    let hi_ok = lo_n * ad <= c_hi * am * h && c_hi * am * h <= hi_n * ad;
                    let mid2: i128 = (hi_n + lo_n) * ad;
                    let v_lo: i128 = c_lo * am * 2 * h;
                    let v_hi: i128 = c_hi * am * 2 * h;
                    let d_lo: i128 = if v_lo >= mid2 {
                        v_lo - mid2
                    } else {
                        mid2 - v_lo
                    };
                    let d_hi: i128 = if v_hi >= mid2 {
                        v_hi - mid2
                    } else {
                        mid2 - v_hi
                    };
                    let chosen: Option<i128> = if c_lo < c_hi && lo_ok && hi_ok {
                        if d_lo <= d_hi {
                            Some(c_lo * am)
                        } else {
                            Some(c_hi * am)
                        }
                    } else if lo_ok {
                        Some(c_lo * am)
                    } else if c_lo < c_hi && hi_ok {
                        Some(c_hi * am)
                    } else {
                        None
                    };
                    assert(match chosen {
                        Some(n) => self.spec_readable_mark(i as int) == Some(n as int),
                        None => self.spec_readable_mark(i as int) is None,
                    });
                    let row = match chosen {
                        Some(num) => {
                            proof {
                                lemma_readable_mark_bounded(num as int, ad as int, h as int,
                                    hi_n as int, lo_n as int);
                            }
                            self.build_label_row(num, ad)
                        },
                        None => self.build_blank_row(max_chars),
                    };
                    rows.push(row);
                    i = i + 1;
                }
                rows
            },
        }
    }

    /// Builds `" <label> ├ "` for the value `num / den` micro-units.
    fn build_label_row(&self, num: i128, den: i128) -> (s: String)
        requires
            1 <= den <= 200_000_000_000,
            -10_000_000_000_000_000_000_000_000_000_000 <= num
                <= 10_000_000_000_000_000_000_000_000_000_000,
        ensures
            s@ == self.spec_label_row(num as int, den as int),
    {
        let mut v: Vec<char> = Vec::new();
        v.push(' ');
        let mut f = format_rat(num, den, self.numeric.precision, self.numeric.scale);
        v.append(&mut f);
        v.push(' ');
        v.push('├');
        v.push(' ');
        assert(v@ == self.spec_label_row(num as int, den as int));
        chars_to_string(&v)
    }

    /// Builds the unlabelled `"   │ "` row.
    fn build_blank_row(&self, max_chars: usize) -> (s: String)
        requires
            max_chars == self.spec_max_chars(),
        ensures
            s@ == self.spec_blank_row(),
    {
        let mut v: Vec<char> = Vec::new();
        v.push(' ');
        push_repeat_char(' ', max_chars, &mut v);
        v.push(' ');
        v.push('│');
        v.push(' ');
        assert(v@ == self.spec_blank_row());
        chars_to_string(&v)
    }
}

/// The interpolated row values of the accurate grid stay inside the
/// formatter's domain, and their factors inside `i128`.
proof fn lemma_accurate_value_bound(axis: YAxis, i: int)
    requires
        0 <= i <= 65536,
    ensures
        -10_000_000_000_000_000_000_000_000_000_000 < axis.max as int * axis.height as int - (
        axis.max as int - axis.min as int) * i < 10_000_000_000_000_000_000_000_000_000_000,
        -2_000_000_000_000_000_000_000_000 < axis.max as int * (axis.height as int)
            < 2_000_000_000_000_000_000_000_000,
        ((axis.max - axis.min) * i > -3_000_000_000_000_000_000_000_000),
        ((axis.max - axis.min) * i < 3_000_000_000_000_000_000_000_000),
{
    assert((axis.max as int) * (axis.height as int) - ((axis.max as int) - (axis.min as int)) * i
        > -10_000_000_000_000_000_000_000_000_000_000 && (axis.max as int) * (
    axis.height as int) - ((axis.max as int) - (axis.min as int)) * i
        < 10_000_000_000_000_000_000_000_000_000_000 && (axis.max as int) * (
    axis.height as int) > -2_000_000_000_000_000_000_000_000 && (axis.max as int) * (
    axis.height as int) < 2_000_000_000_000_000_000_000_000 && ((axis.max as int) - (
    axis.min as int)) * i > -3_000_000_000_000_000_000_000_000 && ((axis.max as int) - (
    axis.min as int)) * i < 3_000_000_000_000_000_000_000_000) by (nonlinear_arith)
        requires
            axis.max as int >= -0x8000000000000000,
            axis.max as int - (axis.min as int) > -0x20000000000000000,
            (axis.max as int) - (axis.min as int) < 0x20000000000000000,
            (axis.max as int) < 0x8000000000000000,
            axis.height as int >= 0,
            (axis.height as int) < 0x10000,
            0 <= i <= 65536,
    ;
}

/// The products behind one readable row: the band numerators, their
/// i128 head-room, and the band's position relative to the magnitude
/// of the data.
proof fn lemma_row_band_bounds(mx: int, span: int, h: int, i: int)
    requires
        -0x8000000000000000 <= mx < 0x8000000000000000,
        1 <= span <= 0x10000000000000000,
        1 <= h <= 65535,
        0 <= i < h,
    ensures
        -2_000_000_000_000_000_000_000_000 < mx * h < 2_000_000_000_000_000_000_000_000,
        0 <= span * i < 3_000_000_000_000_000_000_000_000,
        0 <= span * (i + 1) <= 3_000_000_000_000_000_000_000_000,
        mx * h - span * i <= 30_000_000_000_000_000_000 * h,
        mx * h - span * (i + 1) >= -30_000_000_000_000_000_000 * h,
{
    assert((-2_000_000_000_000_000_000_000_000 < mx * h < 2_000_000_000_000_000_000_000_000)
        && (0 <= span * i < 3_000_000_000_000_000_000_000_000) && (0 <= span * (i + 1)
        <= 3_000_000_000_000_000_000_000_000) && (mx * h - span * i
        <= 30_000_000_000_000_000_000 * h) && (mx * h - span * (i + 1)
        >= -30_000_000_000_000_000_000 * h)) by (nonlinear_arith)
        requires
            -0x8000000000000000 <= mx < 0x8000000000000000,
            1 <= span <= 0x10000000000000000,
            1 <= h <= 65535,
            0 <= i < h,
    ;
}

/// The band and divisor products of the readable grid fit in `i128`.
proof fn lemma_readable_products(hi_n: int, lo_n: int, am: int, ad: int, h: int)
    requires
        -6_000_000_000_000_000_000_000_000 < hi_n < 6_000_000_000_000_000_000_000_000,
        -6_000_000_000_000_000_000_000_000 < lo_n < 6_000_000_000_000_000_000_000_000,
        1 <= am <= 100 * 0x8ac7230489e80000,
        1 <= ad <= 0x174876e800,
        1 <= h <= 65535,
    ensures
        -0x60000000000000000000000000000000 < hi_n * ad < 0x60000000000000000000000000000000,
        -0x60000000000000000000000000000000 < lo_n * ad < 0x60000000000000000000000000000000,
        1 <= h * am < 0x60000000000000000000000000000000,
        -0x60000000000000000000000000000000 < (hi_n + lo_n) * ad
            < 0x60000000000000000000000000000000,
{
    assert((-0x60000000000000000000000000000000 < hi_n * ad
        < 0x60000000000000000000000000000000) && (-0x60000000000000000000000000000000 < lo_n
        * ad < 0x60000000000000000000000000000000) && (1 <= h * am
        < 0x60000000000000000000000000000000) && (-0x60000000000000000000000000000000 < (hi_n
        + lo_n) * ad < 0x60000000000000000000000000000000)) by (nonlinear_arith)
        requires
            -6_000_000_000_000_000_000_000_000 < hi_n < 6_000_000_000_000_000_000_000_000,
            -6_000_000_000_000_000_000_000_000 < lo_n < 6_000_000_000_000_000_000_000_000,
            1 <= am <= 100 * 0x8ac7230489e80000,
            1 <= ad <= 0x174876e800,
            1 <= h <= 65535,
    ;
}

/// The candidate products of the readable grid fit in `i128`.
proof fn lemma_readable_cand_products(c_lo: int, c_hi: int, am: int, ad: int, h: int, hi_n: int,
    lo_n: int)
    requires
        -0x80000000 <= c_lo <= 0x7fffffff,
        -0x80000000 <= c_hi <= 0x7fffffff,
        1 <= am <= 100 * 0x8ac7230489e80000,
        1 <= h <= 65535,
    ensures
        -3_000_000_000_000_000_000_000_000_000_000 < c_lo * am
            < 3_000_000_000_000_000_000_000_000_000_000,
        -3_000_000_000_000_000_000_000_000_000_000 < c_hi * am
            < 3_000_000_000_000_000_000_000_000_000_000,
        -200_000_000_000_000_000_000_000_000_000_000_000 < c_lo * am * h
            < 200_000_000_000_000_000_000_000_000_000_000_000,
        -200_000_000_000_000_000_000_000_000_000_000_000 < c_hi * am * h
            < 200_000_000_000_000_000_000_000_000_000_000_000,
        -6_000_000_000_000_000_000_000_000_000_000 < c_lo * am * 2
            < 6_000_000_000_000_000_000_000_000_000_000,
        -6_000_000_000_000_000_000_000_000_000_000 < c_hi * am * 2
            < 6_000_000_000_000_000_000_000_000_000_000,
        -400_000_000_000_000_000_000_000_000_000_000_000 < c_lo * am * 2 * h
            < 400_000_000_000_000_000_000_000_000_000_000_000,
        -400_000_000_000_000_000_000_000_000_000_000_000 < c_hi * am * 2 * h
            < 400_000_000_000_000_000_000_000_000_000_000_000,
{
    assert((-3_000_000_000_000_000_000_000_000_000_000 < c_lo * am
        < 3_000_000_000_000_000_000_000_000_000_000) && (-3_000_000_000_000_000_000_000_000_000_000
        < c_hi * am < 3_000_000_000_000_000_000_000_000_000_000)
        && (-200_000_000_000_000_000_000_000_000_000_000_000 < c_lo * am * h
        < 200_000_000_000_000_000_000_000_000_000_000_000)
        && (-200_000_000_000_000_000_000_000_000_000_000_000 < c_hi * am * h
        < 200_000_000_000_000_000_000_000_000_000_000_000)
        && (-6_000_000_000_000_000_000_000_000_000_000 < c_lo * am * 2
        < 6_000_000_000_000_000_000_000_000_000_000) && (-6_000_000_000_000_000_000_000_000_000_000
        < c_hi * am * 2 < 6_000_000_000_000_000_000_000_000_000_000)
        && (-400_000_000_000_000_000_000_000_000_000_000_000 < c_lo * am * 2 * h
        < 400_000_000_000_000_000_000_000_000_000_000_000)
        && (-400_000_000_000_000_000_000_000_000_000_000_000 < c_hi * am * 2 * h
        < 400_000_000_000_000_000_000_000_000_000_000_000)) by (nonlinear_arith)
        requires
            -0x80000000 <= c_lo <= 0x7fffffff,
            -0x80000000 <= c_hi <= 0x7fffffff,
            1 <= am <= 100 * 0x8ac7230489e80000,
            1 <= h <= 65535,
    ;
}

/// A mark accepted into a row band is a value the formatter can take:
/// the band lies within the data's magnitude, so the mark numerator
/// (over denominator `ad`) is bounded by that magnitude times `ad`.
proof fn lemma_readable_mark_bounded(num: int, ad: int, h: int, hi_n: int, lo_n: int)
    requires
        lo_n * ad <= num * h <= hi_n * ad,
        hi_n <= 30_000_000_000_000_000_000 * h,
        lo_n >= -30_000_000_000_000_000_000 * h,
        1 <= ad <= 0x174876e800,
        1 <= h <= 65535,
    ensures
        -10_000_000_000_000_000_000_000_000_000_000 <= num
            <= 10_000_000_000_000_000_000_000_000_000_000,
{
    assert(-10_000_000_000_000_000_000_000_000_000_000 <= num
        <= 10_000_000_000_000_000_000_000_000_000_000) by (nonlinear_arith)
        requires
            lo_n * ad <= num * h <= hi_n * ad,
            hi_n <= 30_000_000_000_000_000_000 * h,
            lo_n >= -30_000_000_000_000_000_000 * h,
            1 <= ad <= 0x174876e800,
            1 <= h <= 65535,
    ;
}

/// The scale is linear with the exact endpoints: the bottom of the
/// range sits on row zero and the top on row `height` - for any value
/// in between, `calc_y` is the linear interpolation between the two.
pub proof fn lemma_calc_y_linear(axis: YAxis, v: i64)
    requires
        axis.min < axis.max,
    ensures
        axis.spec_calc_y(axis.min).is_row(0),
        axis.spec_calc_y(axis.max).is_row(axis.height as int),
        axis.spec_calc_y(v).num == (v - axis.min) * axis.height,
        axis.spec_calc_y(v).den == axis.max - axis.min,
{
    lemma_calc_y_in_range(axis, v);
    lemma_calc_y_in_range(axis, axis.min);
    lemma_calc_y_in_range(axis, axis.max);
    assert((axis.max - axis.min) * axis.height as int == axis.height as int * (axis.max
        - axis.min)) by (nonlinear_arith);
}

} // verus!
