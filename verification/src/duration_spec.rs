//! Duration specs as the CLI and GUI spell them: "48f" for frames, "2s" for
//! seconds.
//!
//! Seconds are read as an exact decimal (sign, digits, fraction, exponent) and
//! scaled by the frame rate with round-half-up, so the frame count is the
//! nearest one to the exact product.
use vstd::prelude::*;
use crate::text::{
    all_ascii_digits, chars_of, concat, digits_value, find, find_chars, is_ascii_digit, is_digit,
    lemma_digits_value_push, lemma_find_from_bounds, lower_char, parse_u64, parse_unsigned, push_all,
    push_str, slice, string_of, to_lower_char, trim, trim_chars, unsigned_digits, decimal,
    lead_white, trail_white, trim_start, lemma_decimal_reads_back,
};

verus! {

pub open spec fn syntax_text() -> Seq<char> {
    "expected frames like 48f or seconds like 2s"@
}

pub open spec fn pow10(n: nat) -> nat
    decreases n,
{
    if n == 0 {
        1
    } else {
        10 * pow10((n - 1) as nat)
    }
}

/// The nearest whole number to `a / b`, halves rounded up.
pub open spec fn round_div(a: nat, b: nat) -> nat {
    ((2 * a + b) / (2 * b)) as nat
}

/// A decimal number as `f64::from_str` reads it, split into its parts.
pub struct DecimalParts {
    pub neg: bool,
    pub int_digits: Seq<char>,
    pub frac_digits: Seq<char>,
    pub exp_neg: bool,
    pub exp_digits: Seq<char>,
}

pub open spec fn sign_split(s: Seq<char>) -> (bool, Seq<char>) {
    if s.len() > 0 && (s[0] == '+' || s[0] == '-') {
        (s[0] == '-', s.drop_first())
    } else {
        (false, s)
    }
}

pub open spec fn is_exp_marker(c: char) -> bool {
    c == 'e' || c == 'E'
}

/// The first exponent marker at or after `i`.
pub open spec fn exp_marker_from(s: Seq<char>, i: int) -> Option<int>
    decreases s.len() - i,
{
    if i < 0 || i >= s.len() {
        None
    } else if is_exp_marker(s[i]) {
        Some(i)
    } else {
        exp_marker_from(s, i + 1)
    }
}

/// The parts of a decimal literal: optional sign, digits with an optional
/// fraction (at least one digit in all), optional exponent with at least one
/// digit. `None` where the text is no such literal.
pub open spec fn decimal_parts(s: Seq<char>) -> Option<DecimalParts> {
    let (neg, body) = sign_split(s);
    let mant = match exp_marker_from(body, 0) {
        Some(i) => body.take(i),
        None => body,
    };
    let (int_digits, frac_digits) = match find(mant, seq!['.']) {
        Some(j) => (mant.take(j), mant.skip(j + 1)),
        None => (mant, Seq::<char>::empty()),
    };
    let (exp_neg, exp_digits) = match exp_marker_from(body, 0) {
        Some(i) => sign_split(body.skip(i + 1)),
        None => (false, Seq::<char>::empty()),
    };
    if all_ascii_digits(int_digits) && all_ascii_digits(frac_digits) && int_digits.len()
        + frac_digits.len() > 0 && (exp_marker_from(body, 0) is Some ==> exp_digits.len() > 0
        && all_ascii_digits(exp_digits)) {
        Some(
            DecimalParts { neg, int_digits, frac_digits, exp_neg, exp_digits },
        )
    } else {
        None
    }
}

/// Number of `0` characters at the end of `s`.
pub open spec fn trail_zeros(s: Seq<char>) -> nat
    decreases s.len(),
{
    if s.len() > 0 && s.last() == '0' {
        1 + trail_zeros(s.drop_last())
    } else {
        0
    }
}

/// The significant digits of a decimal: its digits without the trailing zeros.
pub open spec fn significand(d: DecimalParts) -> Seq<char> {
    let digits = d.int_digits + d.frac_digits;
    digits.take(digits.len() - trail_zeros(digits))
}

/// The power of ten that scales `significand(d)` to the decimal's value.
pub open spec fn scale(d: DecimalParts) -> int {
    let digits = d.int_digits + d.frac_digits;
    let x = digits_value(d.exp_digits) as int;
    (if d.exp_neg {
        -x
    } else {
        x
    }) - d.frac_digits.len() + trail_zeros(digits)
}

pub open spec fn max_int(a: int, b: int) -> int {
    if a >= b {
        a
    } else {
        b
    }
}

pub open spec fn at_least_one(n: u32) -> nat {
    if n == 0 {
        1
    } else {
        n as nat
    }
}

/// Number of `0` characters at the start of `s`.
pub open spec fn lead_zeros(s: Seq<char>) -> nat
    decreases s.len(),
{
    if s.len() > 0 && s[0] == '0' {
        1 + lead_zeros(s.drop_first())
    } else {
        0
    }
}

/// How many significant digits a seconds value is read to: more than the
/// 17 or so an `f64` holds, and few enough for exact integer arithmetic.
pub open spec fn read_digits() -> nat {
    28
}

/// The significand and scale a seconds value is read as: its significant
/// digits without leading zeros, cut to the first `read_digits()` of them.
pub open spec fn read_value(d: DecimalParts) -> (nat, int) {
    let r = read_of(significand(d));
    (r.0, scale(d) + r.1)
}

/// A run of digits read to `read_digits()` significant digits: the value of
/// what is kept, and how many digits were cut from its end.
pub open spec fn read_of(s: Seq<char>) -> (nat, nat) {
    let t = s.skip(lead_zeros(s) as int);
    if t.len() > read_digits() {
        (digits_value(t.take(read_digits() as int)), (t.len() - read_digits()) as nat)
    } else {
        (digits_value(t), 0)
    }
}

/// The frame count `value` seconds make at `fps_num / fps_den` (each taken as
/// at least 1), the seconds read to `read_digits()` significant digits; `None`
/// where they are refused: not a decimal, below zero, or so large that an
/// `f64` reads them as infinity (from `f64_limit()` up).
pub open spec fn seconds_frames(value: Seq<char>, fps_num: u32, fps_den: u32) -> Option<nat> {
    match decimal_parts(value) {
        None => None,
        Some(d) => {
            let m = read_value(d).0;
            if m == 0 {
                Some(0)
            } else if d.neg {
                None
            } else {
                frames_of(m, read_value(d).1, at_least_one(fps_num), at_least_one(fps_den))
            }
        },
    }
}

/// The nearest frame count to `m * 10^e` seconds at `num / den` frames a
/// second, saturated at `u64::MAX`; `None` from `f64_limit()` seconds up.
pub open spec fn frames_of(m: nat, e: int, num: nat, den: nat) -> Option<nat> {
    let n = m * pow10(max_int(e, 0) as nat);
    let q = pow10(max_int(-e, 0) as nat);
    if n >= f64_limit() * q {
        None
    } else {
        let f = round_div(n * num, q * den);
        Some(
            if f > u64::MAX {
                u64::MAX as nat
            } else {
                f
            },
        )
    }
}

/// What `parse_duration_frames` answers for `spec`.
pub open spec fn duration_outcome(spec: Seq<char>, fps_num: u32, fps_den: u32) -> Result<
    nat,
    Seq<char>,
> {
    let t = trim(spec);
    if t.len() == 0 {
        Err("empty duration, "@ + syntax_text())
    } else {
        let unit = lower_char(t.last());
        let value = t.drop_last();
        if unit == 'f' {
            match parse_unsigned(value, u64::MAX as nat) {
                Some(v) => Ok(v),
                None => Err("bad frame count '"@ + t + "', "@ + syntax_text()),
            }
        } else if unit == 's' {
            match seconds_frames(value, fps_num, fps_den) {
                Some(v) => Ok(v),
                None => Err("bad duration '"@ + t + "', "@ + syntax_text()),
            }
        } else {
            Err("bad duration '"@ + t + "', "@ + syntax_text())
        }
    }
}

/// The least decimal `f64::from_str` reads as infinity: 2^1024 - 2^970,
/// halfway between `f64::MAX` and 2^1024 (a tie, which rounds away from the
/// odd `f64::MAX`).
pub open spec fn f64_limit() -> nat {
    179769313486231580793728971405303415079934132710037826936173778980444968292764750946649017977587207096330286416692887910946555547851940402630657488671505820681908902000708383676273854845817711531764475730270069855571366959622842914819860834936475292719074168444365510704342711559699508093042880177904174497792nat
}

/// `f64_limit()` over 10^281, rounded up.
pub open spec fn limit_head() -> nat {
    1797693134862315807937289715
}

proof fn lemma_limit_facts()
    ensures
        (limit_head() - 1) * pow10(281) < f64_limit(),
        f64_limit() <= limit_head() * pow10(281),
        pow10(308) < f64_limit(),
        f64_limit() < pow10(309),
        pow10(28) == 10000000000000000000000000000,
{
    reveal_with_fuel(pow10, 2);
    assert(pow10(1) == 10);
    lemma_pow10_add(1, 1);
    assert(pow10(2) == 100nat);
    lemma_pow10_add(2, 2);
    assert(pow10(4) == 10000nat);
    lemma_pow10_add(4, 4);
    assert(pow10(8) == 100000000nat);
    lemma_pow10_add(8, 8);
    assert(pow10(16) == 10000000000000000nat);
    lemma_pow10_add(16, 16);
    assert(pow10(32) == 100000000000000000000000000000000nat);
    lemma_pow10_add(32, 32);
    assert(pow10(64) == 10000000000000000000000000000000000000000000000000000000000000000nat);
    lemma_pow10_add(64, 64);
    assert(pow10(128) == 100000000000000000000000000000000000000000000000000000000000000000000000000000000000000000000000000000000000000000000000000000000nat);
    lemma_pow10_add(128, 128);
    assert(pow10(256) == 10000000000000000000000000000000000000000000000000000000000000000000000000000000000000000000000000000000000000000000000000000000000000000000000000000000000000000000000000000000000000000000000000000000000000000000000000000000000000000000000000000000000000000nat);
    lemma_pow10_add(256, 16);
    assert(pow10(272) == 100000000000000000000000000000000000000000000000000000000000000000000000000000000000000000000000000000000000000000000000000000000000000000000000000000000000000000000000000000000000000000000000000000000000000000000000000000000000000000000000000000000000000000000000000000000nat);
    lemma_pow10_add(272, 8);
    assert(pow10(280) == 10000000000000000000000000000000000000000000000000000000000000000000000000000000000000000000000000000000000000000000000000000000000000000000000000000000000000000000000000000000000000000000000000000000000000000000000000000000000000000000000000000000000000000000000000000000000000000nat);
    lemma_pow10_add(280, 1);
    assert(pow10(281) == 100000000000000000000000000000000000000000000000000000000000000000000000000000000000000000000000000000000000000000000000000000000000000000000000000000000000000000000000000000000000000000000000000000000000000000000000000000000000000000000000000000000000000000000000000000000000000000nat);
    lemma_pow10_add(256, 32);
    assert(pow10(288) == 1000000000000000000000000000000000000000000000000000000000000000000000000000000000000000000000000000000000000000000000000000000000000000000000000000000000000000000000000000000000000000000000000000000000000000000000000000000000000000000000000000000000000000000000000000000000000000000000000nat);
    lemma_pow10_add(288, 16);
    assert(pow10(304) == 10000000000000000000000000000000000000000000000000000000000000000000000000000000000000000000000000000000000000000000000000000000000000000000000000000000000000000000000000000000000000000000000000000000000000000000000000000000000000000000000000000000000000000000000000000000000000000000000000000000000000000nat);
    lemma_pow10_add(304, 4);
    lemma_pow10_add(308, 1);
    lemma_pow10_add(16, 8);
    lemma_pow10_add(24, 4);
    assert(pow10(308) == 100000000000000000000000000000000000000000000000000000000000000000000000000000000000000000000000000000000000000000000000000000000000000000000000000000000000000000000000000000000000000000000000000000000000000000000000000000000000000000000000000000000000000000000000000000000000000000000000000000000000000000000nat);
}

pub proof fn lemma_pow10_positive(n: nat)
    ensures
        pow10(n) >= 1,
    decreases n,
{
    if n > 0 {
        lemma_pow10_positive((n - 1) as nat);
    }
}

pub proof fn lemma_pow10_add(a: nat, b: nat)
    ensures
        pow10(a + b) == pow10(a) * pow10(b),
    decreases a,
{
    if a > 0 {
        let a1 = (a - 1) as nat;
        let t = (a + b) as nat;
        lemma_pow10_add(a1, b);
        assert(pow10(a) == 10 * pow10(a1));
        assert(t > 0);
        assert((t - 1) as nat == a1 + b);
        assert(pow10(t) == 10 * pow10((t - 1) as nat));
        let x = pow10(a1);
        let y = pow10(b);
        assert(10 * (x * y) == (10 * x) * y) by (nonlinear_arith);
        assert(pow10(t) == pow10(a) * pow10(b));
    } else {
        assert(pow10(0) == 1);
        assert(pow10(a) * pow10(b) == pow10(b));
    }
}

pub proof fn lemma_pow10_mono(a: nat, b: nat)
    requires
        a <= b,
    ensures
        pow10(a) <= pow10(b),
{
    lemma_pow10_add(a, (b - a) as nat);
    lemma_pow10_positive((b - a) as nat);
    lemma_pow10_positive(a);
    assert(pow10(a) * pow10((b - a) as nat) >= pow10(a)) by (nonlinear_arith)
        requires
            pow10((b - a) as nat) >= 1,
            pow10(a) >= 1,
    ;
}

pub proof fn lemma_pow10_20()
    ensures
        pow10(20) == 100000000000000000000,
        pow10(20) > u64::MAX,
{
    reveal_with_fuel(pow10, 21);
}

pub proof fn lemma_pow10_39()
    ensures
        pow10(39) > u128::MAX,
{
    reveal_with_fuel(pow10, 40);
}

/// `pow10(k)` as a `u128`, `None` where it does not fit.
fn pow10_u128(k: u32) -> (r: Option<u128>)
    ensures
        r matches Some(v) ==> v as nat == pow10(k as nat),
        r is None ==> pow10(k as nat) > u128::MAX,
{
    let mut v: u128 = 1;
    let mut i: u32 = 0;
    while i < k
        invariant
            i <= k,
            v as nat == pow10(i as nat),
        decreases k - i,
    {
        if v > u128::MAX / 10 {
            proof {
                assert(pow10((i + 1) as nat) == 10 * pow10(i as nat));
                lemma_pow10_mono((i + 1) as nat, k as nat);
            }
            return None;
        }
        v = v * 10;
        i += 1;
    }
    Some(v)
}

/// `(2a + b) / (2b)` without the overflow of `2a + b`.
fn round_div_u128(a: u128, b: u128) -> (r: u128)
    requires
        b > 0,
    ensures
        r as nat == round_div(a as nat, b as nat),
{
    let q = a / b;
    let rem = a % b;
    let up: bool = rem >= b - rem;
    proof {
        let an = a as int;
        let bn = b as int;
        assert(an == q * bn + rem) by (nonlinear_arith)
            requires
                q == an / bn,
                rem == an % bn,
                bn > 0,
        ;
        assert(0 <= rem < bn);
        if up {
            assert((2 * an + bn) / (2 * bn) == q + 1) by (nonlinear_arith)
                requires
                    an == q * bn + rem,
                    0 <= rem < bn,
                    2 * rem >= bn,
                    bn > 0,
                    q >= 0,
            ;
        } else {
            assert((2 * an + bn) / (2 * bn) == q) by (nonlinear_arith)
                requires
                    an == q * bn + rem,
                    0 <= rem < bn,
                    2 * rem < bn,
                    bn > 0,
                    q >= 0,
            ;
        }
    }
    if up {
        assert(q < u128::MAX) by (nonlinear_arith)
            requires
                q == a / b,
                b > 0,
                rem == a % b,
                rem >= b - rem,
                a <= u128::MAX,
        ;
        q + 1
    } else {
        q
    }
}

/// The exponent marker position at or after `i`.
fn find_exp_marker(s: &[char], i: usize) -> (r: Option<usize>)
    requires
        i <= s.len(),
    ensures
        r matches Some(k) ==> exp_marker_from(s@, i as int) == Some(k as int),
        r is None ==> exp_marker_from(s@, i as int) is None,
{
    let mut k = i;
    while k < s.len()
        invariant
            i <= k <= s.len(),
            exp_marker_from(s@, i as int) == exp_marker_from(s@, k as int),
        decreases s.len() - k,
    {
        if s[k] == 'e' || s[k] == 'E' {
            return Some(k);
        }
        k += 1;
    }
    None
}

fn all_digits(s: &[char]) -> (r: bool)
    ensures
        r == all_ascii_digits(s@),
{
    let mut i: usize = 0;
    while i < s.len()
        invariant
            i <= s.len(),
            forall|k: int| 0 <= k < i ==> is_ascii_digit(#[trigger] s@[k]),
        decreases s.len() - i,
    {
        if !is_digit(s[i]) {
            return false;
        }
        i += 1;
    }
    true
}

/// `min(digits_value(s), cap)` for a run of digits.
fn digits_value_capped(s: &[char], cap: u128) -> (r: u128)
    requires
        all_ascii_digits(s@),
    ensures
        r == cap ==> digits_value(s@) >= cap,
        r < cap ==> r as nat == digits_value(s@),
        r <= cap,
{
    let mut v: u128 = 0;
    let mut i: usize = 0;
    while i < s.len()
        invariant
            i <= s.len(),
            all_ascii_digits(s@),
            v <= cap,
            v < cap ==> v as nat == digits_value(s@.take(i as int)),
            v == cap ==> digits_value(s@.take(i as int)) >= cap,
        decreases s.len() - i,
    {
        let c = s[i];
        assert(is_ascii_digit(s@[i as int]));
        let dv: u128 = ((c as u32) - ('0' as u32)) as u128;
        proof {
            assert(s@.take(i + 1) == s@.take(i as int).push(c));
            lemma_digits_value_push(s@.take(i as int), c);
        }
        if dv > cap || v == cap || v > (cap - dv) / 10 {
            proof {
                if v < cap {
                    assert(v * 10 + dv >= cap) by (nonlinear_arith)
                        requires
                            v > (cap - dv) / 10 || dv > cap,
                            dv <= 9,
                    ;
                } else {
                    assert(digits_value(s@.take(i as int)) * 10 + dv >= cap) by (nonlinear_arith)
                        requires
                            digits_value(s@.take(i as int)) >= cap,
                    ;
                }
            }
            v = cap;
        } else {
            assert(v * 10 + dv <= cap) by (nonlinear_arith)
                requires
                    v <= (cap - dv) / 10,
                    dv <= cap,
            ;
            v = v * 10 + dv;
        }
        i += 1;
    }
    assert(s@.take(s.len() as int) == s@);
    v
}

proof fn lemma_trail_zeros(s: Seq<char>)
    ensures
        trail_zeros(s) <= s.len(),
        forall|k: int| s.len() - trail_zeros(s) <= k < s.len() ==> #[trigger] s[k] == '0',
        trail_zeros(s) < s.len() ==> s[s.len() - trail_zeros(s) - 1] != '0',
    decreases s.len(),
{
    if s.len() > 0 && s.last() == '0' {
        lemma_trail_zeros(s.drop_last());
        assert forall|k: int| s.len() - trail_zeros(s) <= k < s.len() implies #[trigger] s[k]
            == '0' by {
            if k < s.len() - 1 {
                assert(s[k] == s.drop_last()[k]);
            }
        }
    }
}

proof fn lemma_trail_zeros_unique(s: Seq<char>, n: int)
    requires
        0 <= n <= s.len(),
        forall|k: int| s.len() - n <= k < s.len() ==> #[trigger] s[k] == '0',
        n < s.len() ==> s[s.len() - n - 1] != '0',
    ensures
        trail_zeros(s) == n,
    decreases s.len(),
{
    if n > 0 {
        let t = s.drop_last();
        assert forall|k: int| t.len() - (n - 1) <= k < t.len() implies #[trigger] t[k] == '0' by {
            assert(t[k] == s[k]);
        }
        if n - 1 < t.len() {
            assert(t[t.len() - (n - 1) - 1] == s[s.len() - n - 1]);
        }
        lemma_trail_zeros_unique(t, n - 1);
    }
}

/// A run that is all zeros has value zero.
proof fn lemma_digits_value_zero(s: Seq<char>)
    requires
        forall|k: int| 0 <= k < s.len() ==> #[trigger] s[k] == '0',
    ensures
        digits_value(s) == 0,
    decreases s.len(),
{
    if s.len() > 0 {
        assert forall|k: int| 0 <= k < s.drop_last().len() implies #[trigger] s.drop_last()[k]
            == '0' by {
            assert(s.drop_last()[k] == s[k]);
        }
        lemma_digits_value_zero(s.drop_last());
    }
}

/// A run of `n` digits is below 10^n, and at least 1 where it starts with a
/// non-zero digit.
proof fn lemma_digits_value_range(s: Seq<char>)
    requires
        all_ascii_digits(s),
    ensures
        digits_value(s) < pow10(s.len()),
        s.len() > 0 && s[0] != '0' ==> digits_value(s) >= 1,
    decreases s.len(),
{
    if s.len() > 0 {
        let t = s.drop_last();
        assert(all_ascii_digits(t)) by {
            assert forall|k: int| 0 <= k < t.len() implies is_ascii_digit(#[trigger] t[k]) by {
                assert(t[k] == s[k]);
            }
        }
        lemma_digits_value_range(t);
        assert(is_ascii_digit(s[s.len() - 1]));
        assert(crate::text::digit_value(s.last()) <= 9);
        assert(pow10(s.len()) == 10 * pow10(t.len()));
        if s.len() > 1 {
            assert(t[0] == s[0]);
        } else {
            assert(digits_value(t) == 0);
            assert(s.last() == s[0]);
        }
    }
}

/// A run ending in a non-zero digit has a positive value.
proof fn lemma_digits_value_positive(s: Seq<char>)
    requires
        s.len() > 0,
        is_ascii_digit(s.last()),
        s.last() != '0',
    ensures
        digits_value(s) >= 1,
{
}

/// Saturation of a huge numerator.
proof fn lemma_round_div_huge(a: nat, b: nat)
    requires
        a > u128::MAX,
        1 <= b <= u32::MAX,
    ensures
        round_div(a, b) > u64::MAX,
{
    assert((2 * a + b) / (2 * b) >= a / b) by (nonlinear_arith)
        requires
            b >= 1,
    ;
    assert(a / b > u64::MAX) by (nonlinear_arith)
        requires
            a > u128::MAX,
            1 <= b <= u32::MAX,
    ;
}

/// A small numerator over a huge denominator rounds to zero.
proof fn lemma_round_div_tiny(a: nat, b: nat)
    requires
        a < 0x80000000000000000000000000000000,
        b > u128::MAX,
    ensures
        round_div(a, b) == 0,
{
    assert((2 * a + b) / (2 * b) == 0) by (nonlinear_arith)
        requires
            2 * a < b,
            b > 0,
    ;
}

/// The parts of a decimal literal, as `decimal_parts` describes them.
fn decimal_split(s: &[char]) -> (r: Option<(bool, Vec<char>, Vec<char>, bool, Vec<char>)>)
    ensures
        r matches Some((neg, i, f, en, x)) ==> decimal_parts(s@) == Some(
            DecimalParts {
                neg,
                int_digits: i@,
                frac_digits: f@,
                exp_neg: en,
                exp_digits: x@,
            },
        ),
        r is None ==> decimal_parts(s@) is None,
{
    let neg: bool = s.len() > 0 && s[0] == '-';
    let b0: usize = if s.len() > 0 && (s[0] == '+' || s[0] == '-') {
        1
    } else {
        0
    };
    let ghost body = sign_split(s@).1;
    let body_v = slice(s, b0, s.len());
    assert(body_v@ == body);
    let marker = find_exp_marker(&body_v, 0);
    proof {
        lemma_exp_marker_bounds(body, 0);
    }
    let mant_end: usize = match marker {
        Some(i) => i,
        None => body_v.len(),
    };
    let mant = slice(&body_v, 0, mant_end);
    let dot: Vec<char> = vec!['.'];
    assert(dot@ == seq!['.']);
    let dpos = find_chars(&mant, &dot);
    proof {
        lemma_find_from_bounds(mant@, seq!['.'], 0);
        if marker is None {
            assert(mant@ == body);
        } else {
            assert(mant@ == body.take(mant_end as int));
        }
    }
    let (int_d, frac_d) = match dpos {
        Some(j) => (slice(&mant, 0, j), slice(&mant, j + 1, mant.len())),
        None => (slice(&mant, 0, mant.len()), Vec::new()),
    };
    proof {
        if dpos is None {
            assert(mant@.subrange(0, mant@.len() as int) == mant@);
        }
    }
    let (exp_neg, exp_d, has_exp) = match marker {
        Some(i) => {
            let rest = slice(&body_v, i + 1, body_v.len());
            let en: bool = rest.len() > 0 && rest[0] == '-';
            let x0: usize = if rest.len() > 0 && (rest[0] == '+' || rest[0] == '-') {
                1
            } else {
                0
            };
            let xd = slice(&rest, x0, rest.len());
            proof {
                assert(rest@ == body.skip(i + 1));
                assert(xd@ == sign_split(rest@).1);
            }
            (en, xd, true)
        },
        None => (false, Vec::new(), false),
    };
    if !(all_digits(&int_d) && all_digits(&frac_d) && int_d.len() + frac_d.len() > 0 && (
    !has_exp || (exp_d.len() > 0 && all_digits(&exp_d)))) {
        return None;
    }
    Some((neg, int_d, frac_d, exp_neg, exp_d))
}

proof fn lemma_below_limit(m: nat, e: int)
    requires
        1 <= m < pow10(28),
        e < 281,
    ensures
        m * pow10(max_int(e, 0) as nat) < f64_limit() * pow10(max_int(-e, 0) as nat),
{
    lemma_limit_facts();
    let p = pow10(max_int(e, 0) as nat);
    let q = pow10(max_int(-e, 0) as nat);
    lemma_pow10_positive(max_int(-e, 0) as nat);
    lemma_pow10_positive(max_int(e, 0) as nat);
    let big = pow10(308);
    let lim = f64_limit();
    let top = pow10(28);
    assert(pow10(0) == 1);
    if e >= 0 {
        assert(q == 1);
        assert(p == pow10(e as nat));
        lemma_pow10_add(28, e as nat);
        lemma_pow10_mono((28 + e) as nat, 308);
        assert(top * p <= big);
        assert(m * p < lim * q) by (nonlinear_arith)
            requires
                m < top,
                p >= 1,
                top * p <= big,
                big < lim,
                q == 1,
        ;
    } else {
        assert(p == 1);
        lemma_pow10_mono(28, 308);
        assert(m * p < lim * q) by (nonlinear_arith)
            requires
                m < top,
                top <= big,
                big < lim,
                q >= 1,
                p == 1,
        ;
    }
}

/// The rounded frame count of `m * 10^e` seconds at `num / den` frames a
/// second, `None` from `f64_limit()` seconds up.
#[verifier::rlimit(40)]
#[verifier::spinoff_prover]
fn frames_for_scaled(m: u128, e: i128, num: u128, den: u128) -> (r: Option<u64>)
    requires
        1 <= m < pow10(28),
        1 <= num <= u32::MAX,
        1 <= den <= u32::MAX,
        -0x10000000000000000000000000 < e < 0x10000000000000000000000000,
    ensures
        r matches Some(v) ==> frames_of(m as nat, e as int, num as nat, den as nat) == Some(
            v as nat,
        ),
        r is None ==> frames_of(m as nat, e as int, num as nat, den as nat) is None,
{
    proof {
        lemma_limit_facts();
        lemma_pow10_positive(max_int(-e, 0) as nat);
        lemma_pow10_positive(max_int(e as int, 0) as nat);
        assert(pow10(0) == 1);
    }
    let head: u128 = 1797693134862315807937289715;
    if e >= 281 {
        let k: i128 = e - 281;
        let ghost pe = pow10(e as nat);
        proof {
            lemma_pow10_add(k as nat, 281);
            assert(max_int(e as int, 0) == e);
            assert(max_int(-e, 0) == 0);
        }
        if k >= 28 {
            proof {
                lemma_pow10_mono(28, k as nat);
                assert(m * pe >= head * pow10(281)) by (nonlinear_arith)
                    requires
                        m >= 1,
                        pe == pow10(k as nat) * pow10(281),
                        pow10(k as nat) >= pow10(28),
                        pow10(28) > head,
                ;
            }
            return None;
        }
        let p = match pow10_u128(k as u32) {
            Some(p) => p,
            None => {
                proof {
                    lemma_pow10_mono(k as nat, 28);
                }
                return None;
            },
        };
        let over: bool = match m.checked_mul(p) {
            None => true,
            Some(mp) => mp >= head,
        };
        if over {
            proof {
                assert(m * pe >= head * pow10(281)) by (nonlinear_arith)
                    requires
                        m * p >= head,
                        p == pow10(k as nat),
                        pe == pow10(k as nat) * pow10(281),
                ;
            }
            return None;
        }
        proof {
            assert(m * pe <= (head - 1) * pow10(281)) by (nonlinear_arith)
                requires
                    m * p <= head - 1,
                    p == pow10(k as nat),
                    pe == pow10(k as nat) * pow10(281),
            ;
            lemma_pow10_mono(39, 281);
            lemma_pow10_39();
            assert(m * pe * num > u128::MAX) by (nonlinear_arith)
                requires
                    m >= 1,
                    num >= 1,
                    pe == pow10(k as nat) * pow10(281),
                    pow10(k as nat) >= 1,
                    pow10(281) >= pow10(39),
                    pow10(39) > u128::MAX,
            ;
            lemma_round_div_huge((m * pe * num) as nat, den as nat);
            assert(frames_of(m as nat, e as int, num as nat, den as nat) == Some(u64::MAX as nat));
        }
        return Some(u64::MAX);
    }
    proof {
        lemma_below_limit(m as nat, e as int);
    }
    if e >= 0 {
        assert(max_int(e as int, 0) == e);
        assert(max_int(-e, 0) == 0);
        let ghost n: nat = m as nat * pow10(e as nat);
        let scale_p = pow10_u128(e as u32);
        let f: u128 = match scale_p {
            None => {
                proof {
                    assert(n * num > u128::MAX) by (nonlinear_arith)
                        requires
                            m >= 1,
                            num >= 1,
                            n == m * pow10(e as nat),
                            pow10(e as nat) > u128::MAX,
                    ;
                    lemma_round_div_huge((n * num) as nat, den as nat);
                }
                return Some(u64::MAX);
            },
            Some(p) => {
                match m.checked_mul(p) {
                    None => {
                        proof {
                            assert(n * num > u128::MAX) by (nonlinear_arith)
                                requires
                                    m * p > u128::MAX,
                                    p == pow10(e as nat),
                                    n == m * pow10(e as nat),
                                    num >= 1,
                            ;
                            lemma_round_div_huge((n * num) as nat, den as nat);
                        }
                        return Some(u64::MAX);
                    },
                    Some(nv) => {
                        match nv.checked_mul(num) {
                            None => {
                                proof {
                                    lemma_round_div_huge((n * num) as nat, den as nat);
                                }
                                return Some(u64::MAX);
                            },
                            Some(a) => {
                                assert(a == n * num);
                                round_div_u128(a, den)
                            },
                        }
                    },
                }
            },
        };
        proof {
            assert(frames_of(m as nat, e as int, num as nat, den as nat) == Some(
                if f > u64::MAX {
                    u64::MAX as nat
                } else {
                    f as nat
                },
            ));
        }
        if f > u64::MAX as u128 {
            Some(u64::MAX)
        } else {
            Some(f as u64)
        }
    } else {
        assert(max_int(e as int, 0) == 0);
        assert(max_int(-e, 0) == -e);
        let fexp: i128 = -e;
        assert(m * num < 0x80000000000000000000000000000000) by (nonlinear_arith)
            requires
                m < pow10(28),
                pow10(28) == 10000000000000000000000000000,
                num <= u32::MAX,
        ;
        let a: u128 = m * num;
        let q = if fexp > 1000 {
            None
        } else {
            pow10_u128(fexp as u32)
        };
        let q = match q {
            None => {
                proof {
                    if fexp > 1000 {
                        lemma_pow10_mono(39, fexp as nat);
                        lemma_pow10_39();
                    }
                    assert(pow10(fexp as nat) * den > u128::MAX) by (nonlinear_arith)
                        requires
                            pow10(fexp as nat) > u128::MAX,
                            den >= 1,
                    ;
                    lemma_round_div_tiny(a as nat, (pow10(fexp as nat) * den) as nat);
                    assert(m * pow10(0) == m) by (nonlinear_arith)
                        requires
                            pow10(0) == 1,
                    ;
                    assert(frames_of(m as nat, e as int, num as nat, den as nat) == Some(0nat));
                }
                return Some(0);
            },
            Some(q) => q,
        };
        proof {
            assert(m * pow10(0) == m) by (nonlinear_arith)
                requires
                    pow10(0) == 1,
            ;
        }
        match q.checked_mul(den) {
            None => {
                proof {
                    lemma_round_div_tiny(a as nat, (q * den) as nat);
                }
                Some(0)
            },
            Some(dd) => {
                proof {
                    assert(dd > 0) by (nonlinear_arith)
                        requires
                            dd == q * den,
                            q >= 1,
                            den >= 1,
                    ;
                }
                let f = round_div_u128(a, dd);
                if f > u64::MAX as u128 {
                    Some(u64::MAX)
                } else {
                    Some(f as u64)
                }
            },
        }
    }
}

/// `sig` read to `read_digits()` significant digits.
fn read_significand(sig: &Vec<char>) -> (r: (u128, usize))
    requires
        sig@.len() > 0,
        all_ascii_digits(sig@),
        sig@.last() != '0',
    ensures
        r.0 as nat == read_of(sig@).0,
        r.1 as nat == read_of(sig@).1,
        1 <= r.0 < pow10(28),
        r.1 <= sig@.len(),
{
    proof {
        assert(sig@.skip(0) =~= sig@);
    }
    // the leading zeros, which read as nothing
    let mut lz: usize = 0;
    while lz < sig.len() && sig[lz] == '0'
        invariant
            lz <= sig.len(),
            forall|k: int| 0 <= k < lz ==> #[trigger] sig@[k] == '0',
            lead_zeros(sig@) == lz + lead_zeros(sig@.skip(lz as int)),
        decreases sig.len() - lz,
    {
        proof {
            let r = sig@.skip(lz as int);
            assert(r[0] == '0');
            assert(r.drop_first() =~= sig@.skip(lz + 1));
        }
        lz += 1;
    }
    proof {
        if lz == sig.len() {
            assert(sig@[sig.len() - 1] == '0');
        }
        assert(sig@.skip(lz as int)[0] != '0');
    }
    let t = slice(&sig, lz, sig.len());
    assert(t@ == sig@.skip(lead_zeros(sig@) as int));
    assert(all_ascii_digits(t@)) by {
        assert forall|k: int| 0 <= k < t@.len() implies is_ascii_digit(#[trigger] t@[k]) by {
            assert(t@[k] == sig@[k + lz]);
        }
    }
    let long = t.len() > 28;
    let extra: usize = if long {
        t.len() - 28
    } else {
        0
    };
    let kept = if long {
        slice(&t, 0, 28)
    } else {
        slice(&t, 0, t.len())
    };
    proof {
        if !long {
            assert(kept@ =~= t@);
        } else {
            assert(kept@ =~= t@.take(28));
        }
        assert(all_ascii_digits(kept@)) by {
            assert forall|k: int| 0 <= k < kept@.len() implies is_ascii_digit(#[trigger] kept@[k]) by {
                assert(kept@[k] == t@[k]);
            }
        }
        assert(kept@[0] == t@[0]);
        lemma_digits_value_range(kept@);
        lemma_limit_facts();
        lemma_pow10_mono(kept@.len(), 28);
        assert(read_of(sig@).0 == digits_value(kept@));
    }
    let m: u128 = digits_value_capped(&kept, u128::MAX);
    (m, extra)
}

/// The frame count `value` seconds make at `fps_num / fps_den`.
#[verifier::spinoff_prover]
#[verifier::rlimit(40)]
pub fn parse_seconds(value: &[char], fps_num: u32, fps_den: u32) -> (r: Option<u64>)
    ensures
        r matches Some(v) ==> seconds_frames(value@, fps_num, fps_den) == Some(v as nat),
        r is None ==> seconds_frames(value@, fps_num, fps_den) is None,
{
    let (neg, int_d, frac_d, exp_neg, exp_d) = match decimal_split(value) {
        None => {
            return None;
        },
        Some(parts) => parts,
    };
    let ghost d = decimal_parts(value@)->0;
    let digits = concat(&int_d, &frac_d);
    let mut sig_end: usize = digits.len();
    while sig_end > 0 && digits[sig_end - 1] == '0'
        invariant
            sig_end <= digits.len(),
            forall|k: int| sig_end <= k < digits.len() ==> #[trigger] digits@[k] == '0',
        decreases sig_end,
    {
        sig_end -= 1;
    }
    let tz: usize = digits.len() - sig_end;
    proof {
        lemma_trail_zeros_unique(digits@, tz as int);
    }
    let sig = slice(&digits, 0, sig_end);
    assert(sig@ == significand(d));
    assert(all_ascii_digits(digits@)) by {
        assert forall|k: int| 0 <= k < digits@.len() implies is_ascii_digit(
            #[trigger] digits@[k],
        ) by {
            if k < int_d@.len() {
                assert(digits@[k] == int_d@[k]);
            } else {
                assert(digits@[k] == frac_d@[k - int_d@.len()]);
            }
        }
    }
    assert(all_ascii_digits(sig@)) by {
        assert forall|k: int| 0 <= k < sig@.len() implies is_ascii_digit(#[trigger] sig@[k]) by {
            assert(sig@[k] == digits@[k]);
        }
    }
    if sig.len() == 0 {
        proof {
            lemma_digits_value_zero(sig@);
            assert(lead_zeros(sig@) == 0);
            assert(sig@.skip(0) =~= sig@);
        }
        return Some(0);
    }
    proof {
        assert(sig@.last() == digits@[sig_end - 1]);
        assert(sig@.skip(0) =~= sig@);
    }
    let (m, extra) = read_significand(&sig);
    if neg {
        return None;
    }
    let num: u128 = if fps_num == 0 {
        1
    } else {
        fps_num as u128
    };
    let den: u128 = if fps_den == 0 {
        1
    } else {
        fps_den as u128
    };
    // the exponent, capped where its size alone decides the outcome
    let cap: u128 = 2 * (int_d.len() as u128 + frac_d.len() as u128) + 1000;
    let xc: u128 = digits_value_capped(&exp_d, cap);
    let ghost e = read_value(d).1;
    proof {
        lemma_limit_facts();
        lemma_trail_zeros(digits@);
        lemma_pow10_positive(max_int(-e, 0) as nat);
        lemma_pow10_positive(max_int(e, 0) as nat);
        assert(pow10(0) == 1);
        assert(extra <= digits@.len());
        assert(e == scale(d) + extra);
    }
    if xc == cap {
        if !exp_neg {
            proof {
                assert(e >= 309);
                lemma_pow10_mono(309, e as nat);
                assert(max_int(e, 0) == e);
                assert(max_int(-e, 0) == 0);
                assert(m * pow10(e as nat) >= f64_limit() * 1) by (nonlinear_arith)
                    requires
                        m >= 1,
                        pow10(e as nat) >= pow10(309),
                        pow10(309) > f64_limit(),
                ;
            }
            return None;
        } else {
            proof {
                let f = -e;
                assert(f >= 1000);
                lemma_pow10_mono(39, f as nat);
                lemma_pow10_39();
                assert(m * num < 0x80000000000000000000000000000000) by (nonlinear_arith)
                    requires
                        m < pow10(28),
                        pow10(28) == 10000000000000000000000000000,
                        num <= u32::MAX,
                ;
                assert(pow10(f as nat) * den > u128::MAX) by (nonlinear_arith)
                    requires
                        pow10(f as nat) > u128::MAX,
                        den >= 1,
                ;
                lemma_round_div_tiny((m * num) as nat, (pow10(f as nat) * den) as nat);
                assert(max_int(e, 0) == 0);
                assert(max_int(-e, 0) == f);
                lemma_pow10_mono(28, 308);
                assert(m * pow10(0) == m) by (nonlinear_arith)
                    requires
                        pow10(0) == 1,
                ;
                assert(m < f64_limit() * pow10(f as nat)) by (nonlinear_arith)
                    requires
                        m < pow10(28),
                        pow10(28) <= pow10(308),
                        pow10(308) < f64_limit(),
                        pow10(f as nat) >= 1,
                ;
                assert(num == at_least_one(fps_num));
                assert(den == at_least_one(fps_den));
                assert(frames_of(m as nat, e, num as nat, den as nat) == Some(0nat));
            }
            return Some(0);
        }
    }
    let ei: i128 = (if exp_neg {
        -(xc as i128)
    } else {
        xc as i128
    }) - (frac_d.len() as i128) + (tz as i128) + (extra as i128);
    assert(ei == e);
    frames_for_scaled(m, ei, num, den)
}

proof fn lemma_exp_marker_bounds(s: Seq<char>, i: int)
    requires
        0 <= i,
    ensures
        exp_marker_from(s, i) matches Some(k) ==> i <= k < s.len() && is_exp_marker(s[k]),
    decreases s.len() - i,
{
    if i < s.len() && !is_exp_marker(s[i]) {
        lemma_exp_marker_bounds(s, i + 1);
    }
}

/// Parse a duration spec into a frame count at `fps_num`/`fps_den`.
///
/// The unit suffix is required: a bare number would otherwise be read as frames
/// by one caller and seconds by the next.
pub fn parse_duration_frames(spec: &str, fps_num: u32, fps_den: u32) -> (r: Result<u64, String>)
    ensures
        match (r, duration_outcome(spec@, fps_num, fps_den)) {
            (Ok(v), Ok(w)) => v as nat == w,
            (Err(e), Err(m)) => e@ == m,
            _ => false,
        },
{
    let all = chars_of(spec);
    let t = trim_chars(&all);
    let mut syntax: Vec<char> = Vec::new();
    push_str(&mut syntax, "expected frames like 48f or seconds like 2s");
    if t.len() == 0 {
        let mut msg = chars_of("empty duration, ");
        push_all(&mut msg, &syntax);
        return Err(string_of(&msg));
    }
    let unit = to_lower_char(t[t.len() - 1]);
    let value = slice(&t, 0, t.len() - 1);
    assert(value@ == t@.drop_last());
    if unit == 'f' {
        match parse_u64(&value) {
            Some(v) => Ok(v),
            None => {
                let mut msg = chars_of("bad frame count '");
                push_all(&mut msg, &t);
                push_str(&mut msg, "', ");
                push_all(&mut msg, &syntax);
                Err(string_of(&msg))
            },
        }
    } else {
        let seconds = if unit == 's' {
            parse_seconds(&value, fps_num, fps_den)
        } else {
            None
        };
        match seconds {
            Some(v) => Ok(v),
            None => {
                let mut msg = chars_of("bad duration '");
                push_all(&mut msg, &t);
                push_str(&mut msg, "', ");
                push_all(&mut msg, &syntax);
                Err(string_of(&msg))
            },
        }
    }
}


/// A frame count written as `<n>f` reads as `n` frames, at any rate.
pub proof fn law_frame_count_round_trip(n: u64, fps_num: u32, fps_den: u32)
    ensures
        duration_outcome(decimal(n as nat) + "f"@, fps_num, fps_den) == Ok::<nat, Seq<char>>(
            n as nat,
        ),
{
    reveal_strlit("f");
    let s = decimal(n as nat) + "f"@;
    lemma_decimal_reads_back(n as nat);
    assert(s.last() == 'f');
    assert(s[0] == decimal(n as nat)[0]);
    assert(is_ascii_digit(s[0]));
    assert(lead_white(s) == 0);
    assert(trail_white(s) == 0);
    assert(trim_start(s) =~= s);
    assert(trim(s) =~= s);
    assert(s.drop_last() =~= decimal(n as nat));
}

} // verus!
