//! The time axis: interval descriptions and label placement.
//!
//! Labels are adaptive: each tick shows only the most specific civil
//! field that changed since the previous tick (year, then month/day,
//! then clock time), and a label is dropped rather than drawn over an
//! earlier one or past the edge.

use vstd::prelude::*;

use crate::calendar::{civil_of, civil_parts};
use crate::utils::{
    chars_to_string, push_dec_digits, push_repeat_char, spec_dec_digits, spec_pad_left,
    spec_repeat_char,
};

verus! {

/// Time-label verbosity classes: how much of the clock a label shows.
#[derive(Debug, Clone, Copy, PartialEq, Eq, Structural)]
pub enum Precision {
    Second,
    Minute,
    Day,
}

/// The fixed spacing between consecutive candles.
#[derive(Debug, Clone, Copy, PartialEq, Eq, Hash, Structural)]
pub enum Interval {
    OneSecond,
    OneMinute,
    ThreeMinutes,
    FiveMinutes,
    FifteenMinutes,
    ThirtyMinutes,
    OneHour,
    TwoHours,
    FourHours,
    SixHours,
    EightHours,
    TwelveHours,
    OneDay,
    ThreeDays,
    OneWeek,
}

impl Interval {
    /// The interval's duration in seconds.
    pub open spec fn spec_seconds(self) -> i64 {
        match self {
            Interval::OneSecond => 1,
            Interval::OneMinute => 60,
            Interval::ThreeMinutes => 180,
            Interval::FiveMinutes => 300,
            Interval::FifteenMinutes => 900,
            Interval::ThirtyMinutes => 1800,
            Interval::OneHour => 3600,
            Interval::TwoHours => 7200,
            Interval::FourHours => 14400,
            Interval::SixHours => 21600,
            Interval::EightHours => 28800,
            Interval::TwelveHours => 43200,
            Interval::OneDay => 86400,
            Interval::ThreeDays => 259200,
            Interval::OneWeek => 604800,
        }
    }

    #[verifier::when_used_as_spec(spec_seconds)]
    pub fn seconds(self) -> (r: i64)
        ensures
            r == self.spec_seconds(),
    {
        match self {
            Interval::OneSecond => 1,
            Interval::OneMinute => 60,
            Interval::ThreeMinutes => 180,
            Interval::FiveMinutes => 300,
            Interval::FifteenMinutes => 900,
            Interval::ThirtyMinutes => 1800,
            Interval::OneHour => 3600,
            Interval::TwoHours => 7200,
            Interval::FourHours => 14400,
            Interval::SixHours => 21600,
            Interval::EightHours => 28800,
            Interval::TwelveHours => 43200,
            Interval::OneDay => 86400,
            Interval::ThreeDays => 259200,
            Interval::OneWeek => 604800,
        }
    }

    /// The interval's duration in milliseconds, the unit of timestamps.
    pub open spec fn spec_step_ms(self) -> int {
        self.spec_seconds() * 1000
    }

    pub fn step_ms(self) -> (r: i64)
        ensures
            r == self.spec_step_ms(),
    {
        self.seconds() * 1000
    }

    /// How many intervals apart interior tick labels are placed.
    pub open spec fn spec_render_gap(self) -> usize {
        match self {
            Interval::OneSecond => 30,
            Interval::OneMinute => 15,
            Interval::ThreeMinutes => 20,
            Interval::FiveMinutes => 12,
            Interval::FifteenMinutes => 8,
            Interval::ThirtyMinutes => 8,
            Interval::OneHour => 12,
            Interval::TwoHours => 12,
            Interval::FourHours => 18,
            Interval::SixHours => 12,
            Interval::EightHours => 9,
            Interval::TwelveHours => 14,
            Interval::OneDay => 30,
            Interval::ThreeDays => 30,
            Interval::OneWeek => 12,
        }
    }

    #[verifier::when_used_as_spec(spec_render_gap)]
    pub(crate) fn render_gap(self) -> (r: usize)
        ensures
            r == self.spec_render_gap(),
    {
        match self {
            Interval::OneSecond => 30,
            Interval::OneMinute => 15,
            Interval::ThreeMinutes => 20,
            Interval::FiveMinutes => 12,
            Interval::FifteenMinutes => 8,
            Interval::ThirtyMinutes => 8,
            Interval::OneHour => 12,
            Interval::TwoHours => 12,
            Interval::FourHours => 18,
            Interval::SixHours => 12,
            Interval::EightHours => 9,
            Interval::TwelveHours => 14,
            Interval::OneDay => 30,
            Interval::ThreeDays => 30,
            Interval::OneWeek => 12,
        }
    }

    /// The clock verbosity used for this interval's labels.
    pub open spec fn spec_render_precision(self) -> Precision {
        match self {
            Interval::OneSecond => Precision::Second,
            Interval::OneDay => Precision::Day,
            Interval::ThreeDays => Precision::Day,
            Interval::OneWeek => Precision::Day,
            _ => Precision::Minute,
        }
    }

    #[verifier::when_used_as_spec(spec_render_precision)]
    pub(crate) fn render_precision(self) -> (r: Precision)
        ensures
            r == self.spec_render_precision(),
    {
        match self {
            Interval::OneSecond => Precision::Second,
            Interval::OneDay => Precision::Day,
            Interval::ThreeDays => Precision::Day,
            Interval::OneWeek => Precision::Day,
            _ => Precision::Minute,
        }
    }
}

} // verus!

verus! {

/// Timestamps the time axis accepts: inside the calendar conversion's
/// range even after a full screen of interval-sized steps.
pub const MAX_AXIS_TIMESTAMP_MS: i64 = 8_040_000_000_000_000;

/// A civil instant as plain fields: (year, month, day, hour, minute,
/// second).
pub type CivilFields = (int, int, int, int, int, int);

pub open spec fn spec_two_digits(n: int) -> Seq<char> {
    spec_pad_left(spec_dec_digits(n as nat), '0', 2)
}

pub open spec fn spec_year_digits(y: int) -> Seq<char> {
    if y >= 0 {
        spec_pad_left(spec_dec_digits(y as nat), '0', 4)
    } else {
        seq!['-'] + spec_pad_left(spec_dec_digits((-y) as nat), '0', 4)
    }
}

pub open spec fn spec_ymd(p: CivilFields) -> Seq<char> {
    spec_year_digits(p.0) + seq!['/'] + spec_two_digits(p.1) + seq!['/'] + spec_two_digits(p.2)
}

pub open spec fn spec_md(p: CivilFields) -> Seq<char> {
    spec_two_digits(p.1) + seq!['/'] + spec_two_digits(p.2)
}

pub open spec fn spec_hm(p: CivilFields) -> Seq<char> {
    spec_two_digits(p.3) + seq![':'] + spec_two_digits(p.4)
}

pub open spec fn spec_hms(p: CivilFields) -> Seq<char> {
    spec_hm(p) + seq![':'] + spec_two_digits(p.5)
}

/// The label of the newest visible tick: the most specific field
/// group that changed since `prev` picks the format, widened or
/// narrowed by the interval's precision class.
pub open spec fn spec_shorted_now(prev: CivilFields, now: CivilFields, precision: Precision)
    -> Seq<char> {
    if prev.0 != now.0 {
        match precision {
            Precision::Second => spec_ymd(now) + seq![' '] + spec_hms(now),
            Precision::Minute => spec_ymd(now) + seq![' '] + spec_hm(now),
            Precision::Day => spec_ymd(now),
        }
    } else if prev.1 != now.1 || prev.2 != now.2 {
        match precision {
            Precision::Second => spec_md(now) + seq![' '] + spec_hms(now),
            Precision::Minute => spec_md(now) + seq![' '] + spec_hm(now),
            Precision::Day => spec_md(now),
        }
    } else if prev.3 != now.3 || prev.4 != now.4 || prev.5 != now.5 {
        match precision {
            Precision::Second => spec_hms(now),
            Precision::Minute => spec_hm(now),
            Precision::Day => spec_md(now),
        }
    } else {
        Seq::empty()
    }
}

/// The label of an interior tick: exactly the most specific field
/// group that changed since the previous tick.
pub open spec fn spec_diff_datetime(prev: CivilFields, now: CivilFields) -> Seq<char> {
    if prev.0 != now.0 {
        spec_year_digits(now.0)
    } else if prev.1 != now.1 || prev.2 != now.2 {
        spec_md(now)
    } else if prev.3 != now.3 || prev.4 != now.4 {
        spec_hm(now)
    } else if prev.5 != now.5 {
        spec_hms(now)
    } else {
        Seq::empty()
    }
}

pub(crate) fn push_two_digits(n: u8, out: &mut Vec<char>)
    requires
        n < 100,
    ensures
        final(out)@ == old(out)@ + spec_two_digits(n as int),
{
    if n < 10 {
        out.push('0');
        proof {
            assert(spec_repeat_char('0', 0) =~= Seq::<char>::empty());
            assert(spec_repeat_char('0', 1) =~= seq!['0']);
        }
    } else {
        assert(spec_dec_digits((n as nat) / 10).len() == 1);
    }
    push_dec_digits(n as u128, out);
    assert(out@ =~= old(out)@ + spec_two_digits(n as int));
}

pub(crate) fn push_year_digits(y: i32, out: &mut Vec<char>)
    requires
        -400_000 <= y <= 400_000,
    ensures
        final(out)@ == old(out)@ + spec_year_digits(y as int),
{
    if y < 0 {
        out.push('-');
    }
    let m: u128 = if y < 0 {
        (-(y as i64)) as u128
    } else {
        y as u128
    };
    assert(m == (if y < 0 { -(y as int) } else { y as int }));
    let mut fd: Vec<char> = Vec::new();
    push_dec_digits(m, &mut fd);
    if fd.len() < 4 {
        push_repeat_char('0', 4 - fd.len(), out);
    }
    out.append(&mut fd);
    assert(out@ =~= old(out)@ + spec_year_digits(y as int));
}

/// The exec civil fields handed out by the calendar wrapper.
pub(crate) type Parts = (i32, u8, u8, u8, u8, u8);

pub(crate) open spec fn parts_view(p: Parts) -> CivilFields {
    (p.0 as int, p.1 as int, p.2 as int, p.3 as int, p.4 as int, p.5 as int)
}

/// Field bounds the calendar wrapper guarantees.
pub(crate) open spec fn parts_wf(p: Parts) -> bool {
    &&& -400_000 <= p.0 <= 400_000
    &&& p.1 < 100
    &&& p.2 < 100
    &&& p.3 < 100
    &&& p.4 < 100
    &&& p.5 < 100
}

fn push_md(p: Parts, out: &mut Vec<char>)
    requires
        parts_wf(p),
    ensures
        final(out)@ == old(out)@ + spec_md(parts_view(p)),
{
    push_two_digits(p.1, out);
    out.push('/');
    push_two_digits(p.2, out);
    assert(out@ =~= old(out)@ + spec_md(parts_view(p)));
}

fn push_ymd(p: Parts, out: &mut Vec<char>)
    requires
        parts_wf(p),
    ensures
        final(out)@ == old(out)@ + spec_ymd(parts_view(p)),
{
    push_year_digits(p.0, out);
    out.push('/');
    push_two_digits(p.1, out);
    out.push('/');
    push_two_digits(p.2, out);
    assert(out@ =~= old(out)@ + spec_ymd(parts_view(p)));
}

fn push_hm(p: Parts, out: &mut Vec<char>)
    requires
        parts_wf(p),
    ensures
        final(out)@ == old(out)@ + spec_hm(parts_view(p)),
{
    push_two_digits(p.3, out);
    out.push(':');
    push_two_digits(p.4, out);
    assert(out@ =~= old(out)@ + spec_hm(parts_view(p)));
}

fn push_hms(p: Parts, out: &mut Vec<char>)
    requires
        parts_wf(p),
    ensures
        final(out)@ == old(out)@ + spec_hms(parts_view(p)),
{
    push_hm(p, out);
    out.push(':');
    push_two_digits(p.5, out);
    assert(out@ =~= old(out)@ + spec_hms(parts_view(p)));
}

/// Builds the newest tick's label text.
fn build_shorted_now(prev: Parts, now: Parts, precision: Precision) -> (v: Vec<char>)
    requires
        parts_wf(prev),
        parts_wf(now),
    ensures
        v@ == spec_shorted_now(parts_view(prev), parts_view(now), precision),
{
    let mut out: Vec<char> = Vec::new();
    if prev.0 != now.0 {
        match precision {
            Precision::Second => {
                push_ymd(now, &mut out);
                out.push(' ');
                push_hms(now, &mut out);
            },
            Precision::Minute => {
                push_ymd(now, &mut out);
                out.push(' ');
                push_hm(now, &mut out);
            },
            Precision::Day => {
                push_ymd(now, &mut out);
            },
        }
    } else if prev.1 != now.1 || prev.2 != now.2 {
        match precision {
            Precision::Second => {
                push_md(now, &mut out);
                out.push(' ');
                push_hms(now, &mut out);
            },
            Precision::Minute => {
                push_md(now, &mut out);
                out.push(' ');
                push_hm(now, &mut out);
            },
            Precision::Day => {
                push_md(now, &mut out);
            },
        }
    } else if prev.3 != now.3 || prev.4 != now.4 || prev.5 != now.5 {
        match precision {
            Precision::Second => {
                push_hms(now, &mut out);
            },
            Precision::Minute => {
                push_hm(now, &mut out);
            },
            Precision::Day => {
                push_md(now, &mut out);
            },
        }
    }
    assert(out@ =~= spec_shorted_now(parts_view(prev), parts_view(now), precision));
    out
}

/// Builds an interior tick's label text.
fn build_diff_datetime(prev: Parts, now: Parts) -> (v: Vec<char>)
    requires
        parts_wf(prev),
        parts_wf(now),
    ensures
        v@ == spec_diff_datetime(parts_view(prev), parts_view(now)),
{
    let mut out: Vec<char> = Vec::new();
    if prev.0 != now.0 {
        push_year_digits(now.0, &mut out);
    } else if prev.1 != now.1 || prev.2 != now.2 {
        push_md(now, &mut out);
    } else if prev.3 != now.3 || prev.4 != now.4 {
        push_hm(now, &mut out);
    } else if prev.5 != now.5 {
        push_hms(now, &mut out);
    }
    assert(out@ =~= spec_diff_datetime(parts_view(prev), parts_view(now)));
    out
}

} // verus!

verus! {

/// What one overwrite attempt does to a row of characters: the write
/// position is clamped into the row; a value wider than the row, or -
/// without `overlap` - one that would cover a non-blank character, is
/// rejected and the row kept; otherwise the value replaces the
/// characters at the clamped position.  The boolean reports whether
/// the write happened.
/// All characters of `chars` in `[start, start + len)` are blank.
pub open spec fn spec_all_blank(chars: Seq<char>, start: int, len: int) -> bool {
    forall|i: int| start <= i < start + len ==> (#[trigger] chars[i]) == ' '
}

/// The clamped write position of an overwrite at `idx`.
pub open spec fn spec_overwrite_start(chars: Seq<char>, idx: int, vlen: int) -> int {
    if idx < 0 {
        0
    } else if chars.len() < idx + vlen {
        chars.len() - vlen
    } else {
        idx
    }
}

pub open spec fn spec_overwrite(chars: Seq<char>, idx: int, value: Seq<char>, overlap: bool)
    -> (Seq<char>, bool) {
    if chars.len() < value.len() {
        (chars, false)
    } else {
        let start = spec_overwrite_start(chars, idx, value.len() as int);
        if !overlap && !spec_all_blank(chars, start, value.len() as int) {
            (chars, false)
        } else {
            (chars.take(start) + value + chars.skip(start + value.len()), true)
        }
    }
}

/// Writes `value` into the row at `idx` (clamped), unless it does not
/// fit or - without `overlap` - would cover earlier non-blank text.
pub fn overwrite_chars(chars: &mut Vec<char>, idx: isize, value: String, overlap: bool)
    -> (w: bool)
    ensures
        final(chars)@ == spec_overwrite(old(chars)@, idx as int, value@, overlap).0,
        w == spec_overwrite(old(chars)@, idx as int, value@, overlap).1,
{
    let vs = value.as_str();
    let vlen: usize = vs.unicode_len();
    let clen: usize = chars.len();
    if clen < vlen {
        return false;
    }

    let start: usize = if idx < 0 {
        0
    } else if clen - vlen < idx as usize {
        clen - vlen
    } else {
        idx as usize
    };
    assert(start as int == spec_overwrite_start(old(chars)@, idx as int, value@.len() as int));

    if !overlap {
        let mut i: usize = 0;
        while i < vlen
            invariant
                i <= vlen,
                !overlap,
                vlen == value@.len(),
                clen == chars@.len(),
                start + vlen <= clen,
                start as int == spec_overwrite_start(old(chars)@, idx as int, value@.len() as int),
                chars@ == old(chars)@,
                forall|j: int| start <= j < start + i ==> #[trigger] chars@[j] == ' ',
            decreases vlen - i,
        {
            if chars[start + i] != ' ' {
                proof {
                    let wi: int = start as int + i as int;
                    assert(old(chars)@[wi] != ' ');
                    assert(!spec_all_blank(old(chars)@, start as int, value@.len() as int));
                }
                return false;
            }
            i = i + 1;
        }
        assert(spec_all_blank(old(chars)@, start as int, value@.len() as int));
    }

    let mut i: usize = 0;
    assert(chars@ =~= old(chars)@.take(start as int) + value@.take(0) + old(chars)@.skip(
        start as int));
    while i < vlen
        invariant
            i <= vlen,
            vlen == value@.len(),
            vs@ == value@,
            clen == old(chars)@.len(),
            start + vlen <= clen,
            chars@.len() == clen,
            chars@ =~= old(chars)@.take(start as int) + value@.take(i as int) + old(
                chars,
            )@.skip(start as int + i as int),
        decreases vlen - i,
    {
        let c = vs.get_char(i);
        chars.set(start + i, c);
        i = i + 1;
        assert(chars@ =~= old(chars)@.take(start as int) + value@.take(i as int) + old(
            chars,
        )@.skip(start as int + i as int));
    }
    assert(chars@ =~= old(chars)@.take(start as int) + value@ + old(chars)@.skip(
        start as int + vlen as int));
    true
}

/// The time axis over an inclusive timestamp window `[min, max]`,
/// `width` columns wide, with `is_realtime` marking the live edge.
#[derive(Debug, Clone, Copy, PartialEq, Eq, Structural)]
pub struct XAxis {
    pub width: u16,
    pub min: i64,
    pub max: i64,
    pub interval: Interval,
    pub is_realtime: bool,
}

/// Whether the interval step divides `t` (sign ignored): interior
/// labels sit only on such grid-aligned instants.
pub open spec fn spec_gap_aligned(t: int, gap: int) -> bool {
    (if t >= 0 { t } else { -t }) % gap == 0
}

impl XAxis {
    /// Bounds under which every window computation stays exact.
    pub open spec fn wf(self) -> bool {
        &&& self.min <= self.max
        &&& -MAX_AXIS_TIMESTAMP_MS <= self.min
        &&& self.max <= MAX_AXIS_TIMESTAMP_MS
    }

    /// How many interval-aligned instants lie in the window.
    pub open spec fn spec_count(self) -> int {
        (self.max - self.min) / self.interval.spec_step_ms() + 1
    }

    /// How many of them are kept: the newest `width`.
    pub open spec fn spec_n(self) -> int {
        if self.spec_count() <= self.width as int {
            self.spec_count()
        } else {
            self.width as int
        }
    }

    /// The `i`-th kept instant, oldest first.
    pub open spec fn spec_ts(self, i: int) -> int {
        self.min + (self.spec_count() - self.spec_n() + i) * self.interval.spec_step_ms()
    }

    /// Builds an axis; an inverted window is a programmer error,
    /// excluded up front.
    pub fn new(width: u16, min: i64, max: i64, interval: Interval, is_realtime: bool) -> (r: Self)
        requires
            min <= max,
            -MAX_AXIS_TIMESTAMP_MS <= min,
            max <= MAX_AXIS_TIMESTAMP_MS,
        ensures
            r == (XAxis { width, min, max, interval, is_realtime }),
            r.wf(),
    {
        XAxis { width, min, max, interval, is_realtime }
    }

    /// One interior label attempt folded onto the two rows: pair
    /// `idx` labels the instant `ts(idx + 1)` when it is aligned to
    /// the label gap, writing centered text (in UTC fields, as the
    /// instants are carried) and its tick mark if the text fits over
    /// blank space only.
    pub open spec fn spec_apply_pair(self, idx: int, rule: Seq<char>, label: Seq<char>) -> (
        Seq<char>,
        Seq<char>,
    ) {
        let gap = self.interval.spec_render_gap() * self.interval.spec_step_ms();
        let t = self.spec_ts(idx + 1);
        if !spec_gap_aligned(t, gap) {
            (rule, label)
        } else {
            let rendered = spec_diff_datetime(civil_of(self.spec_ts(idx), 0), civil_of(t, 0));
            let value = seq![' '] + rendered + seq![' '];
            let res = spec_overwrite(label, idx - rendered.len() as int / 2, value, false);
            if res.1 {
                (rule.update(idx + 1, '┴'), res.0)
            } else {
                (rule, res.0)
            }
        }
    }

    /// The two rows after the interior label attempts for pairs
    /// `0 .. k`, applied oldest first.
    pub open spec fn spec_fold_pairs(self, k: int, rule: Seq<char>, label: Seq<char>) -> (
        Seq<char>,
        Seq<char>,
    )
        decreases k,
    {
        if k <= 0 {
            (rule, label)
        } else {
            let prev = self.spec_fold_pairs(k - 1, rule, label);
            self.spec_apply_pair(k - 1, prev.0, prev.1)
        }
    }

    /// The finished rule and label rows: a full-width line and blank
    /// row; the newest instant's label (starred when live) written
    /// with priority; then the interior labels.  With a single
    /// visible instant the label's reference point is the instant one
    /// interval earlier, so the rows are a pure function of the axis
    /// and the offset.
    pub open spec fn spec_rows(self, offset_secs: int) -> (Seq<char>, Seq<char>) {
        let rule0 = spec_repeat_char('─', self.width as nat);
        let label0 = spec_repeat_char(' ', self.width as nat);
        let n = self.spec_n();
        if n == 0 {
            (rule0, label0)
        } else {
            let prev = if n == 1 {
                self.spec_ts(0) - self.interval.spec_step_ms()
            } else {
                self.spec_ts(n - 2)
            };
            let now = self.spec_ts(n - 1);
            let rendered0 = spec_shorted_now(
                civil_of(prev, offset_secs),
                civil_of(now, offset_secs),
                self.interval.spec_render_precision(),
            );
            let rendered = if self.is_realtime {
                seq!['*'] + rendered0
            } else {
                rendered0
            };
            let res = spec_overwrite(label0, n - 1 - rendered.len() as int / 2, rendered, true);
            let rule1 = if res.1 {
                rule0.update(n - 1, '┴')
            } else {
                rule0
            };
            if n == 1 {
                (rule1, res.0)
            } else {
                self.spec_fold_pairs(n - 1, rule1, res.0)
            }
        }
    }
}

} // verus!

verus! {

/// A window slot times its step stays inside the window.
proof fn lemma_ts_in_window(span: int, step: int, q: int)
    requires
        step >= 1,
        span >= 0,
        0 <= q <= span / step,
    ensures
        0 <= q * step <= span,
{
    assert(0 <= q * step <= span) by (nonlinear_arith)
        requires
            step >= 1,
            span >= 0,
            0 <= q <= span / step,
    ;
}

/// An overwrite keeps the row's length.
pub proof fn lemma_overwrite_len(chars: Seq<char>, idx: int, value: Seq<char>, overlap: bool)
    ensures
        spec_overwrite(chars, idx, value, overlap).0.len() == chars.len(),
{
}

impl XAxis {
    /// The interior-label fold keeps both rows' lengths.
    pub proof fn lemma_fold_pairs_len(self, k: int, rule: Seq<char>, label: Seq<char>)
        requires
            k < rule.len(),
        ensures
            self.spec_fold_pairs(k, rule, label).0.len() == rule.len(),
            self.spec_fold_pairs(k, rule, label).1.len() == label.len(),
        decreases k,
    {
        if k > 0 {
            self.lemma_fold_pairs_len(k - 1, rule, label);
            let prev = self.spec_fold_pairs(k - 1, rule, label);
            let gap = self.interval.spec_render_gap() * self.interval.spec_step_ms();
            let t = self.spec_ts(k);
            if spec_gap_aligned(t, gap) {
                let rendered = spec_diff_datetime(civil_of(self.spec_ts(k - 1), 0), civil_of(
                    t, 0));
                let value = seq![' '] + rendered + seq![' '];
                lemma_overwrite_len(prev.1, k - 1 - rendered.len() as int / 2, value, false);
            }
        }
    }

    /// The instant `q` steps after the window start.
    fn ts_at(&self, q: i64) -> (t: i64)
        requires
            self.wf(),
            0 <= q,
            q * self.interval.spec_step_ms() <= self.max - self.min,
        ensures
            t == self.min + q * self.interval.spec_step_ms(),
            self.min <= t <= self.max,
    {
        proof {
            assert(q * self.interval.spec_step_ms() >= 0) by (nonlinear_arith)
                requires
                    q >= 0,
                    self.interval.spec_step_ms() >= 1,
            ;
        }
        self.min + q * self.interval.step_ms()
    }

    /// Renders the axis into its two rows: the tick-mark rule line and
    /// the label line.
    #[verifier::rlimit(100)]
    pub fn render(&self, time_offset_secs: i32) -> (rows: Vec<String>)
        requires
            self.wf(),
            -86_400 < time_offset_secs < 86_400,
        ensures
            rows@.len() == 2,
            rows@[0]@ == self.spec_rows(time_offset_secs as int).0,
            rows@[1]@ == self.spec_rows(time_offset_secs as int).1,
            rows@[0]@.len() == self.width as int,
            rows@[1]@.len() == self.width as int,
    {
        let width = self.width as usize;
        let step: i64 = self.interval.step_ms();
        let span: i64 = self.max - self.min;
        let count: i64 = ((span as u64) / (step as u64)) as i64 + 1;
        assert(count == self.spec_count());
        let n: i64 = if count <= self.width as i64 {
            count
        } else {
            self.width as i64
        };
        assert(n == self.spec_n());

        let mut rule: Vec<char> = Vec::new();
        push_repeat_char('─', width, &mut rule);
        let mut label: Vec<char> = Vec::new();
        push_repeat_char(' ', width, &mut label);
        proof {
            crate::utils::lemma_repeat_char_len('─', self.width as nat);
            crate::utils::lemma_repeat_char_len(' ', self.width as nat);
        }

        if n == 0 {
            let mut rows: Vec<String> = Vec::new();
            rows.push(chars_to_string(&rule));
            rows.push(chars_to_string(&label));
            proof {
                crate::utils::lemma_repeat_char_len('─', self.width as nat);
                crate::utils::lemma_repeat_char_len(' ', self.width as nat);
            }
            return rows;
        }

        let start_idx: i64 = count - n;

        // the newest tick's label, written with overlap priority
        proof {
            lemma_ts_in_window(span as int, step as int, (start_idx + n - 1) as int);
            if n >= 2 {
                lemma_ts_in_window(span as int, step as int, (start_idx + n - 2) as int);
            } else {
                lemma_ts_in_window(span as int, step as int, start_idx as int);
            }
        }
        let now_ts: i64 = self.ts_at(start_idx + n - 1);
        let prev_ts: i64 = if n == 1 {
            self.ts_at(start_idx) - step
        } else {
            self.ts_at(start_idx + n - 2)
        };
        assert(now_ts as int == self.spec_ts(n - 1));
        assert(prev_ts as int == (if n == 1 {
            self.spec_ts(0) - self.interval.spec_step_ms()
        } else {
            self.spec_ts(n - 2)
        }));
        let prev_p = civil_parts(prev_ts, time_offset_secs);
        let now_p = civil_parts(now_ts, time_offset_secs);
        let rendered0 = build_shorted_now(prev_p, now_p, self.interval.render_precision());
        let rendered: Vec<char> = if self.is_realtime {
            let mut v: Vec<char> = Vec::new();
            v.push('*');
            let mut r0 = rendered0;
            v.append(&mut r0);
            v
        } else {
            rendered0
        };
        let ghost rendered_spec = rendered@;
        let rlen: usize = rendered.len();
        let idx0: isize = (n - 1) as isize - (rlen / 2) as isize;
        let ghost label0 = label@;
        let ghost rule0 = rule@;
        let w = overwrite_chars(&mut label, idx0, chars_to_string(&rendered), true);
        if w {
            rule.set((n - 1) as usize, '┴');
        }
        let ghost rule1 = rule@;
        let ghost label1 = label@;
        proof {
            assert(label1 == spec_overwrite(label0, idx0 as int, rendered_spec, true).0);
            assert(rule1 == (if spec_overwrite(label0, idx0 as int, rendered_spec, true).1 {
                rule0.update(n - 1, '┴')
            } else {
                rule0
            }));
        }

        if n == 1 {
            let mut rows: Vec<String> = Vec::new();
            rows.push(chars_to_string(&rule));
            rows.push(chars_to_string(&label));
            assert(rule@.len() == self.width as int && label@.len() == self.width as int);
            return rows;
        }

        // interior tick labels, oldest first, never overwriting text
        proof {
            assert(1 <= self.interval.spec_render_gap() <= 30);
            assert(1000 <= self.interval.spec_step_ms() <= 604800000);
            assert(1 <= self.interval.spec_render_gap() * self.interval.spec_step_ms()
                <= 30 * 604800000) by (nonlinear_arith)
                requires
                    1 <= self.interval.spec_render_gap() <= 30,
                    1000 <= self.interval.spec_step_ms() <= 604800000,
            ;
        }
        let gap: i64 = (self.interval.render_gap() as i64) * step;
        assert(gap == self.interval.spec_render_gap() * self.interval.spec_step_ms());
        let mut idx: i64 = 0;
        while idx < n - 1
            invariant
                0 <= idx <= n - 1,
                self.wf(),
                -86_400 < time_offset_secs < 86_400,
                step == self.interval.spec_step_ms(),
                span == self.max - self.min,
                count == self.spec_count(),
                n == self.spec_n(),
                2 <= n <= self.width,
                start_idx == count - n,
                gap == self.interval.spec_render_gap() * self.interval.spec_step_ms(),
                1 <= gap,
                rule@.len() == self.width as int,
                label@.len() == self.width as int,
                (rule@, label@) == self.spec_fold_pairs(idx as int, rule1, label1),
            decreases n - 1 - idx,
        {
            let ghost pre = (rule@, label@);
            proof {
                lemma_ts_in_window(span as int, step as int, (start_idx + idx) as int);
                lemma_ts_in_window(span as int, step as int, (start_idx + idx + 1) as int);
            }
            let t_prev: i64 = self.ts_at(start_idx + idx);
            let t: i64 = self.ts_at(start_idx + idx + 1);
            assert(t_prev as int == self.spec_ts(idx as int));
            assert(t as int == self.spec_ts(idx as int + 1));
            let ta: u64 = if t >= 0 {
                t as u64
            } else {
                (-t) as u64
            };
            if ta % (gap as u64) == 0 {
                assert(spec_gap_aligned(t as int, gap as int));
                let pp = civil_parts(t_prev, 0);
                let np = civil_parts(t, 0);
                let dr = build_diff_datetime(pp, np);
                let dlen: usize = dr.len();
                let mut value: Vec<char> = Vec::new();
                value.push(' ');
                let mut dr2 = dr;
                value.append(&mut dr2);
                value.push(' ');
                let vidx: isize = idx as isize - (dlen / 2) as isize;
                let ghost lbefore = label@;
                let w2 = overwrite_chars(&mut label, vidx, chars_to_string(&value), false);
                if w2 {
                    rule.set((idx + 1) as usize, '┴');
                }
                assert((rule@, label@) == self.spec_apply_pair(idx as int, pre.0, pre.1));
            } else {
                assert(!spec_gap_aligned(t as int, gap as int));
                assert((rule@, label@) == self.spec_apply_pair(idx as int, pre.0, pre.1));
            }
            idx = idx + 1;
            assert((rule@, label@) == self.spec_fold_pairs(idx as int, rule1, label1));
        }

        proof {
            self.lemma_fold_pairs_len(n - 1, rule1, label1);
        }
        let mut rows: Vec<String> = Vec::new();
        rows.push(chars_to_string(&rule));
        rows.push(chars_to_string(&label));
        rows
    }
}

} // verus!
