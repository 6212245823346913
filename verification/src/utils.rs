//! Small text and integer helpers shared by the axis renderers:
//! decimal digit strings, padding, fixed-point rounding, and building
//! a `String` from a vector of characters.

use vstd::prelude::*;

verus! {

pub open spec fn spec_digit_char(d: int) -> char {
    if d == 0 { '0' }
    else if d == 1 { '1' }
    else if d == 2 { '2' }
    else if d == 3 { '3' }
    else if d == 4 { '4' }
    else if d == 5 { '5' }
    else if d == 6 { '6' }
    else if d == 7 { '7' }
    else if d == 8 { '8' }
    else { '9' }
}

/// The decimal digits of `n`, most significant first, without sign.
pub open spec fn spec_dec_digits(n: nat) -> Seq<char>
    decreases n,
{
    if n < 10 {
        seq![spec_digit_char(n as int)]
    } else {
        spec_dec_digits(n / 10) + seq![spec_digit_char((n % 10) as int)]
    }
}

pub open spec fn spec_repeat_char(c: char, k: nat) -> Seq<char>
    decreases k,
{
    if k == 0 {
        Seq::empty()
    } else {
        spec_repeat_char(c, (k - 1) as nat) + seq![c]
    }
}

/// `s` left-padded with `c` up to width `w` (unchanged if already wider).
pub open spec fn spec_pad_left(s: Seq<char>, c: char, w: nat) -> Seq<char> {
    if s.len() >= w {
        s
    } else {
        spec_repeat_char(c, (w - s.len()) as nat) + s
    }
}

pub open spec fn spec_pow10(k: nat) -> nat
    decreases k,
{
    if k == 0 {
        1
    } else {
        10 * spec_pow10((k - 1) as nat)
    }
}

/// Truncating (towards zero) division, as `/` behaves on machine integers.
pub open spec fn spec_trunc_div(a: int, b: int) -> int
    recommends
        b >= 1,
{
    if a >= 0 {
        a / b
    } else {
        -((-a) / b)
    }
}

/// `x` clamped into the `i32` range, as a float-to-`i32` cast saturates.
pub open spec fn spec_sat_i32(x: int) -> int {
    if x > i32::MAX as int {
        i32::MAX as int
    } else if x < i32::MIN as int {
        i32::MIN as int
    } else {
        x
    }
}

/// `a / b` rounded to the nearest integer, ties away from zero.
pub open spec fn spec_round_half_away(a: int, b: int) -> int
    recommends
        b >= 1,
{
    if a >= 0 {
        if 2 * (a % b) >= b {
            a / b + 1
        } else {
            a / b
        }
    } else {
        let m = -a;
        if 2 * (m % b) >= b {
            -(m / b) - 1
        } else {
            -(m / b)
        }
    }
}

pub proof fn lemma_repeat_char_len(c: char, k: nat)
    ensures
        spec_repeat_char(c, k).len() == k,
    decreases k,
{
    if k > 0 {
        lemma_repeat_char_len(c, (k - 1) as nat);
    }
}

pub proof fn lemma_dec_digits_len(n: nat)
    ensures
        spec_dec_digits(n).len() >= 1,
    decreases n,
{
    if n >= 10 {
        lemma_dec_digits_len(n / 10);
    }
}

pub proof fn lemma_pow10_pos(k: nat)
    ensures
        spec_pow10(k) >= 1,
    decreases k,
{
    if k > 0 {
        lemma_pow10_pos((k - 1) as nat);
    }
}

pub proof fn lemma_pow10_mono(j: nat, k: nat)
    requires
        j <= k,
    ensures
        spec_pow10(j) <= spec_pow10(k),
    decreases k,
{
    lemma_pow10_pos(j);
    if j < k {
        lemma_pow10_mono(j, (k - 1) as nat);
    }
}

/// Every number below `10^k` prints in at most `k` digits.
pub proof fn lemma_dec_digits_len_bound(n: nat, k: nat)
    requires
        k >= 1,
        n < spec_pow10(k),
    ensures
        spec_dec_digits(n).len() <= k,
    decreases k,
{
    if n >= 10 {
        assert(spec_pow10(k) == 10 * spec_pow10((k - 1) as nat));
        lemma_dec_digits_len_bound(n / 10, (k - 1) as nat);
    }
}

pub proof fn lemma_pow10_6_value()
    ensures
        spec_pow10(6) == 1000000,
{
    assert(spec_pow10(0) == 1);
    assert(spec_pow10(1) == 10);
    assert(spec_pow10(2) == 100);
    assert(spec_pow10(3) == 1000);
    assert(spec_pow10(4) == 10000);
    assert(spec_pow10(5) == 100000);
    assert(spec_pow10(6) == 1000000);
}

/// `10^37`, the largest power of ten the helpers below ever build.
pub proof fn lemma_pow10_37_value()
    ensures
        spec_pow10(11) == 0x174876e800,
        spec_pow10(14) == 0x5af3107a4000,
        spec_pow10(17) == 0x16345785d8a0000,
        spec_pow10(19) == 0x8ac7230489e80000,
        spec_pow10(37) == 0x785ee10d5da46d900f436a000000000,
        spec_pow10(38) == 0x4b3b4ca85a86c47a098a224000000000,
        spec_pow10(39) == 0x2f050fe938943acc45f65568000000000,
{
    assert(spec_pow10(0) == 0x1);
    assert(spec_pow10(1) == 0xa);
    assert(spec_pow10(2) == 0x64);
    assert(spec_pow10(3) == 0x3e8);
    assert(spec_pow10(4) == 0x2710);
    assert(spec_pow10(5) == 0x186a0);
    assert(spec_pow10(6) == 0xf4240);
    assert(spec_pow10(7) == 0x989680);
    assert(spec_pow10(8) == 0x5f5e100);
    assert(spec_pow10(9) == 0x3b9aca00);
    assert(spec_pow10(10) == 0x2540be400);
    assert(spec_pow10(11) == 0x174876e800);
    assert(spec_pow10(12) == 0xe8d4a51000);
    assert(spec_pow10(13) == 0x9184e72a000);
    assert(spec_pow10(14) == 0x5af3107a4000);
    assert(spec_pow10(15) == 0x38d7ea4c68000);
    assert(spec_pow10(16) == 0x2386f26fc10000);
    assert(spec_pow10(17) == 0x16345785d8a0000);
    assert(spec_pow10(18) == 0xde0b6b3a7640000);
    assert(spec_pow10(19) == 0x8ac7230489e80000);
    assert(spec_pow10(20) == 0x56bc75e2d63100000);
    assert(spec_pow10(21) == 0x3635c9adc5dea00000);
    assert(spec_pow10(22) == 0x21e19e0c9bab2400000);
    assert(spec_pow10(23) == 0x152d02c7e14af6800000);
    assert(spec_pow10(24) == 0xd3c21bcecceda1000000);
    assert(spec_pow10(25) == 0x84595161401484a000000);
    assert(spec_pow10(26) == 0x52b7d2dcc80cd2e4000000);
    assert(spec_pow10(27) == 0x33b2e3c9fd0803ce8000000);
    assert(spec_pow10(28) == 0x204fce5e3e25026110000000);
    assert(spec_pow10(29) == 0x1431e0fae6d7217caa0000000);
    assert(spec_pow10(30) == 0xc9f2c9cd04674edea40000000);
    assert(spec_pow10(31) == 0x7e37be2022c0914b2680000000);
    assert(spec_pow10(32) == 0x4ee2d6d415b85acef8100000000);
    assert(spec_pow10(33) == 0x314dc6448d9338c15b0a00000000);
    assert(spec_pow10(34) == 0x1ed09bead87c0378d8e6400000000);
    assert(spec_pow10(35) == 0x13426172c74d822b878fe800000000);
    assert(spec_pow10(36) == 0xc097ce7bc90715b34b9f1000000000);
    assert(spec_pow10(37) == 0x785ee10d5da46d900f436a000000000);
    assert(spec_pow10(38) == 0x4b3b4ca85a86c47a098a224000000000);
    assert(spec_pow10(39) == 0x2f050fe938943acc45f65568000000000);
}

pub(crate) fn pow10_u128(k: usize) -> (r: u128)
    requires
        k <= 37,
    ensures
        r == spec_pow10(k as nat),
        r >= 1,
{
    let mut i: usize = 0;
    let mut r: u128 = 1;
    while i < k
        invariant
            i <= k,
            k <= 37,
            r == spec_pow10(i as nat),
        decreases k - i,
    {
        proof {
            lemma_pow10_mono((i + 1) as nat, 37);
            lemma_pow10_37_value();
        }
        r = r * 10;
        i = i + 1;
    }
    proof {
        lemma_pow10_pos(k as nat);
    }
    r
}

pub(crate) fn pow10_i128(k: usize) -> (r: i128)
    requires
        k <= 37,
    ensures
        r == spec_pow10(k as nat),
        r >= 1,
{
    proof {
        lemma_pow10_mono(k as nat, 37);
        lemma_pow10_37_value();
    }
    let u = pow10_u128(k);
    u as i128
}

/// Truncating division of an `i128` by a positive divisor.
pub(crate) fn trunc_div_i128(a: i128, b: i128) -> (r: i128)
    requires
        b >= 1,
        a > i128::MIN,
    ensures
        r == spec_trunc_div(a as int, b as int),
{
    if a >= 0 {
        let q = (a as u128) / (b as u128);
        q as i128
    } else {
        let q = ((-a) as u128) / (b as u128);
        -(q as i128)
    }
}

/// Clamps an `i128` into the `i32` range.
pub(crate) fn sat_i32(x: i128) -> (r: i128)
    ensures
        r == spec_sat_i32(x as int),
{
    if x > i32::MAX as i128 {
        i32::MAX as i128
    } else if x < i32::MIN as i128 {
        i32::MIN as i128
    } else {
        x
    }
}

fn digit_char(d: u128) -> (c: char)
    requires
        d < 10,
    ensures
        c == spec_digit_char(d as int),
{
    if d == 0 { '0' }
    else if d == 1 { '1' }
    else if d == 2 { '2' }
    else if d == 3 { '3' }
    else if d == 4 { '4' }
    else if d == 5 { '5' }
    else if d == 6 { '6' }
    else if d == 7 { '7' }
    else if d == 8 { '8' }
    else { '9' }
}

/// Appends the decimal digits of `n` to `out`.
pub(crate) fn push_dec_digits(n: u128, out: &mut Vec<char>)
    ensures
        final(out)@ == old(out)@ + spec_dec_digits(n as nat),
    decreases n,
{
    if n < 10 {
        let c = digit_char(n);
        out.push(c);
    } else {
        push_dec_digits(n / 10, out);
        let c = digit_char(n % 10);
        out.push(c);
    }
}

/// Appends `k` copies of `c` to `out`.
pub(crate) fn push_repeat_char(c: char, k: usize, out: &mut Vec<char>)
    ensures
        final(out)@ == old(out)@ + spec_repeat_char(c, k as nat),
{
    let mut i: usize = 0;
    while i < k
        invariant
            i <= k,
            out@ == old(out)@ + spec_repeat_char(c, i as nat),
        decreases k - i,
    {
        out.push(c);
        i = i + 1;
        assert(spec_repeat_char(c, i as nat) == spec_repeat_char(c, (i - 1) as nat) + seq![c]);
    }
}

/// `a / b` rounded to the nearest integer, ties away from zero.
pub(crate) fn round_half_away(a: i128, b: i128) -> (r: i128)
    requires
        1 <= b,
        -0x20000000000000000000000000000000 < a < 0x20000000000000000000000000000000,
    ensures
        r == spec_round_half_away(a as int, b as int),
        -0x20000000000000000000000000000001 < r < 0x20000000000000000000000000000001,
{
    if a >= 0 {
        let m = a as u128;
        let bu = b as u128;
        let q = m / bu;
        let rem = m % bu;
        if 2 * rem >= bu {
            (q + 1) as i128
        } else {
            q as i128
        }
    } else {
        let m = (-a) as u128;
        let bu = b as u128;
        let q = m / bu;
        let rem = m % bu;
        if 2 * rem >= bu {
            -((q + 1) as i128)
        } else {
            -(q as i128)
        }
    }
}

/// Builds a `String` holding exactly the characters of `v`.
pub fn chars_to_string(v: &Vec<char>) -> (s: String)
    ensures
        s@ == v@,
{
    let mut s = String::new();
    let mut i: usize = 0;
    while i < v.len()
        invariant
            i <= v@.len(),
            s@ == v@.subrange(0, i as int),
        decreases v@.len() - i,
    {
        push_char(&mut s, v[i]);
        i = i + 1;
        assert(v@.subrange(0, i as int) == v@.subrange(0, i - 1) + seq![v@[i - 1]]);
    }
    assert(v@.subrange(0, v@.len() as int) == v@);
    s
}

/// Relies on `String::push`: appends one character to the string.
#[verifier::external_body]
fn push_char(s: &mut String, c: char)
    ensures
        final(s)@ == old(s)@.push(c),
{
    s.push(c)
}

} // verus!

verus! {

/// The characters of `s` as a vector.
pub fn string_to_chars(s: &str) -> (v: Vec<char>)
    ensures
        v@ == s@,
{
    let n = s.unicode_len();
    let mut v: Vec<char> = Vec::new();
    let mut i: usize = 0;
    while i < n
        invariant
            i <= n,
            n == s@.len(),
            v@ == s@.subrange(0, i as int),
        decreases n - i,
    {
        let c = s.get_char(i);
        v.push(c);
        i = i + 1;
        assert(s@.subrange(0, i as int) =~= s@.subrange(0, i - 1) + seq![s@[i - 1]]);
    }
    assert(s@.subrange(0, s@.len() as int) =~= s@);
    v
}

} // verus!
