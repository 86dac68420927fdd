//! Decimal numbers as they appear in IDF files: digit strings, exact decimal
//! values and their fixed-point rendering.
use vstd::prelude::*;

verus! {

/// Ten to the power `n`.
pub open spec fn pow10(n: nat) -> nat
    decreases n,
{
    if n == 0 {
        1
    } else {
        10 * pow10((n - 1) as nat)
    }
}

pub open spec fn is_digit(c: char) -> bool {
    '0' <= c && c <= '9'
}

/// The value of a decimal digit character.
pub open spec fn digit_value(c: char) -> nat {
    (c as u32 - '0' as u32) as nat
}

/// The character of the decimal digit `d` (for `d < 10`).
pub open spec fn digit_char(d: nat) -> char {
    ((d + 48) as u8) as char
}

/// The number that a run of decimal digits denotes.
pub open spec fn digits_value(t: Seq<char>) -> nat
    decreases t.len(),
{
    if t.len() == 0 {
        0
    } else {
        digits_value(t.drop_last()) * 10 + digit_value(t.last())
    }
}

/// The shortest decimal rendering of `n`.
pub open spec fn digits(n: nat) -> Seq<char>
    decreases n,
{
    if n < 10 {
        seq![digit_char(n)]
    } else {
        digits(n / 10).push(digit_char(n % 10))
    }
}

/// The last `w` decimal digits of `n`, with leading zeros.
pub open spec fn padded(n: nat, w: nat) -> Seq<char>
    decreases w,
{
    if w == 0 {
        seq![]
    } else {
        padded(n / 10, (w - 1) as nat).push(digit_char(n % 10))
    }
}

pub open spec fn abs(x: int) -> nat {
    if x < 0 {
        (-x) as nat
    } else {
        x as nat
    }
}

/// Decimal rendering of an integer, with a leading `-` when it is negative.
pub open spec fn int_text(x: int) -> Seq<char> {
    if x < 0 {
        seq!['-'] + digits(abs(x))
    } else {
        digits(abs(x))
    }
}

proof fn lemma_pow10_positive(n: nat)
    ensures
        pow10(n) >= 1,
    decreases n,
{
    if n > 0 {
        lemma_pow10_positive((n - 1) as nat);
    }
}

/// Appends `c` to `s`.
/// Relies on std's `String::push`, which appends one character.
#[verifier::external_body]
pub(crate) fn push_char(s: &mut String, c: char)
    ensures
        final(s)@ == old(s)@.push(c),
{
    s.push(c)
}

fn digit_to_char(d: u8) -> (c: char)
    requires
        d < 10,
    ensures
        c == digit_char(d as nat),
{
    (d + 48) as char
}

/// Appends the shortest decimal rendering of `n` to `out`.
pub(crate) fn push_digits(out: &mut String, n: u128)
    ensures
        final(out)@ == old(out)@ + digits(n as nat),
    decreases n,
{
    if n >= 10 {
        push_digits(out, n / 10);
    }
    push_char(out, digit_to_char((n % 10) as u8));
    proof {
        assert(old(out)@ + digits(n as nat) =~= final(out)@) by {
            if n >= 10 {
                assert(digits(n as nat) == digits((n / 10) as nat).push(digit_char((n % 10) as nat)));
            }
        }
    }
}

/// Appends the last `w` decimal digits of `n` to `out`, with leading zeros.
pub(crate) fn push_padded(out: &mut String, n: u128, w: u32)
    ensures
        final(out)@ == old(out)@ + padded(n as nat, w as nat),
    decreases w,
{
    if w > 0 {
        push_padded(out, n / 10, w - 1);
        push_char(out, digit_to_char((n % 10) as u8));
        proof {
            assert(old(out)@ + padded(n as nat, w as nat) =~= final(out)@);
        }
    } else {
        proof {
            assert(old(out)@ + padded(n as nat, w as nat) =~= final(out)@);
        }
    }
}

/// Appends the decimal rendering of `x` to `out`.
pub(crate) fn push_int(out: &mut String, x: i64)
    ensures
        final(out)@ == old(out)@ + int_text(x as int),
{
    if x < 0 {
        push_char(out, '-');
        let m: u128 = (0i128 - x as i128) as u128;
        push_digits(out, m);
        proof {
            assert(old(out)@ + int_text(x as int) =~= final(out)@);
        }
    } else {
        push_digits(out, x as u128);
        proof {
            assert(old(out)@ + int_text(x as int) =~= final(out)@);
        }
    }
}

/// An exact decimal number: `mantissa` divided by ten to the power `scale`.
///
/// Values that the decoder produces are normal: the mantissa carries no
/// trailing zero that the scale could absorb, so two normal decimals are
/// equal exactly when they denote the same number.
#[derive(Clone, Copy, Debug, PartialEq, Eq, Structural)]
pub struct Decimal {
    pub mantissa: i64,
    pub scale: u32,
}

impl Decimal {
    pub open spec fn is_normal(self) -> bool {
        self.scale == 0 || abs(self.mantissa as int) % 10 != 0
    }

    /// The decimal for the integer `mantissa` divided by ten to the power `scale`.
    pub fn new(mantissa: i64, scale: u32) -> (d: Decimal)
        ensures
            d.mantissa == mantissa,
            d.scale == scale,
    {
        Decimal { mantissa, scale }
    }
}

/// The magnitude of `m / 10^s`, scaled by `10^p` and rounded to the nearest
/// integer, halves away from zero.
pub open spec fn rounded(m: int, s: nat, p: nat) -> nat {
    if s <= p {
        abs(m) * pow10((p - s) as nat)
    } else {
        (2 * abs(m) + pow10((s - p) as nat)) / (2 * pow10((s - p) as nat))
    }
}

/// `d` rendered with exactly `p` digits after the decimal point.
pub open spec fn fixed_text(d: Decimal, p: nat) -> Seq<char> {
    let n = rounded(d.mantissa as int, d.scale as nat, p);
    let body = digits(n / pow10(p)) + seq!['.'] + padded(n % pow10(p), p);
    if d.mantissa < 0 && n > 0 {
        seq!['-'] + body
    } else {
        body
    }
}

proof fn lemma_pow10_grows(a: nat, b: nat)
    requires
        a <= b,
    ensures
        pow10(a) <= pow10(b),
    decreases b,
{
    if a < b {
        lemma_pow10_grows(a, (b - 1) as nat);
        lemma_pow10_positive((b - 1) as nat);
    }
}

proof fn lemma_pow10_values()
    ensures
        pow10(4) == 10000,
        pow10(19) == 10000000000000000000,
        pow10(20) == 100000000000000000000,
{
    reveal_with_fuel(pow10, 21);
}

fn pow10_exec(n: u32) -> (r: u128)
    requires
        n <= 20,
    ensures
        r == pow10(n as nat),
{
    let mut r: u128 = 1;
    let mut i: u32 = 0;
    while i < n
        invariant
            i <= n <= 20,
            r == pow10(i as nat),
        decreases n - i,
    {
        proof {
            lemma_pow10_grows((i + 1) as nat, 20);
            lemma_pow10_values();
        }
        r = r * 10;
        i = i + 1;
    }
    r
}

/// Appends `d` rendered with exactly `places` digits after the decimal point.
pub(crate) fn push_fixed(out: &mut String, d: Decimal, places: u32)
    requires
        places <= 4,
    ensures
        final(out)@ == old(out)@ + fixed_text(d, places as nat),
{
    let mag: u128 = if d.mantissa < 0 {
        (0i128 - d.mantissa as i128) as u128
    } else {
        d.mantissa as u128
    };
    assert(mag == abs(d.mantissa as int));
    assert(mag <= 9223372036854775808);
    let n: u128 = if d.scale <= places {
        let f = pow10_exec(places - d.scale);
        proof {
            lemma_pow10_grows((places - d.scale) as nat, 4);
            lemma_pow10_values();
            assert(mag * f <= 9223372036854775808 * 10000) by (nonlinear_arith)
                requires mag <= 9223372036854775808, f <= 10000;
        }
        mag * f
    } else if d.scale - places >= 20 {
        proof {
            let k = (d.scale - places) as nat;
            lemma_pow10_grows(20, k);
            lemma_pow10_values();
            let q: int = pow10(k) as int;
            let a: int = mag as int;
            vstd::arithmetic::div_mod::lemma_basic_div(2 * a + q, 2 * q);
        }
        0
    } else {
        let q = pow10_exec(d.scale - places);
        proof {
            lemma_pow10_positive((d.scale - places) as nat);
            lemma_pow10_grows((d.scale - places) as nat, 19);
            lemma_pow10_values();
        }
        (2 * mag + q) / (2 * q)
    };
    assert(n == rounded(d.mantissa as int, d.scale as nat, places as nat));
    proof {
        lemma_pow10_grows(places as nat, 4);
        lemma_pow10_values();
    }
    let unit = pow10_exec(places);
    proof {
        lemma_pow10_positive(places as nat);
    }
    let neg = d.mantissa < 0 && n > 0;
    if neg {
        push_char(out, '-');
    }
    push_digits(out, n / unit);
    push_char(out, '.');
    push_padded(out, n % unit, places);
    proof {
        assert(old(out)@ + fixed_text(d, places as nat) =~= final(out)@);
    }
}

/// Length of a leading `+` or `-`.
pub open spec fn sign_len(t: Seq<char>) -> int {
    if t.len() > 0 && (t[0] == '+' || t[0] == '-') {
        1
    } else {
        0
    }
}

/// The end of the run of digits that starts at `i`.
pub open spec fn digit_run(t: Seq<char>, i: int) -> int
    decreases t.len() - i,
{
    if 0 <= i < t.len() && is_digit(t[i]) {
        digit_run(t, i + 1)
    } else {
        i
    }
}

pub open spec fn all_digits(t: Seq<char>, i: int, j: int) -> bool {
    forall|k: int| i <= k < j ==> is_digit(#[trigger] t[k])
}

/// An integer token: an optional sign and one or more digits.
pub open spec fn is_integer_text(t: Seq<char>) -> bool {
    sign_len(t) < t.len() && all_digits(t, sign_len(t), t.len() as int)
}

/// Where the digits after the decimal point of a float token end.
pub open spec fn frac_end(t: Seq<char>) -> int {
    digit_run(t, digit_run(t, sign_len(t)) + 1)
}

/// Where the digits of the exponent of a float token start.
pub open spec fn exp_start(t: Seq<char>) -> int {
    let c = frac_end(t);
    c + 1 + sign_len(t.subrange(c + 1, t.len() as int))
}

/// A float token: an optional sign, digits, `.`, digits, and optionally
/// `e` or `E` with an optional sign and digits.
pub open spec fn is_float_text(t: Seq<char>) -> bool {
    let a = sign_len(t);
    let b = digit_run(t, a);
    let c = frac_end(t);
    &&& a < b < t.len()
    &&& t[b] == '.'
    &&& b + 1 < c
    &&& c == t.len() || {
        &&& c + 1 < t.len()
        &&& (t[c] == 'e' || t[c] == 'E')
        &&& exp_start(t) < t.len()
        &&& all_digits(t, exp_start(t), t.len() as int)
    }
}

/// A value that an integer token denotes, if it fits in an `i64`.
pub open spec fn i64_of(t: Seq<char>) -> Option<i64> {
    let m = digits_value(t.subrange(sign_len(t), t.len() as int));
    let v: int = if t[0] == '-' {
        -m
    } else {
        m as int
    };
    if i64::MIN <= v <= i64::MAX {
        Some(v as i64)
    } else {
        None
    }
}

/// The unsigned number that `t` spells (an optional `+` and digits), if it
/// fits in a `u32`.
pub open spec fn u32_of(t: Seq<char>) -> Option<u32> {
    let a: int = if t.len() > 0 && t[0] == '+' {
        1
    } else {
        0
    };
    let v = digits_value(t.subrange(a, t.len() as int));
    if a < t.len() && all_digits(t, a, t.len() as int) && v <= u32::MAX {
        Some(v as u32)
    } else {
        None
    }
}

/// `m / 10^s` with the trailing zeros of `m` that `s` can absorb removed.
pub open spec fn strip(m: nat, s: nat) -> (nat, nat)
    decreases s,
{
    if s > 0 && m % 10 == 0 {
        strip(m / 10, (s - 1) as nat)
    } else {
        (m, s)
    }
}

/// The normal decimal for `mag * 10^(-sc)`, negated when `neg`, if its
/// mantissa fits in an `i64` and its scale in a `u32`.
pub open spec fn decimal_of(neg: bool, mag: nat, sc: int) -> Option<Decimal> {
    if mag == 0 {
        Some(Decimal { mantissa: 0, scale: 0 })
    } else if sc <= 0 {
        let v = mag * pow10((-sc) as nat);
        if v <= i64::MAX {
            Some(Decimal { mantissa: if neg { -v } else { v as int } as i64, scale: 0 })
        } else {
            None
        }
    } else {
        let (m, s) = strip(mag, sc as nat);
        if m <= i64::MAX && s <= u32::MAX {
            Some(Decimal { mantissa: if neg { -m } else { m as int } as i64, scale: s as u32 })
        } else {
            None
        }
    }
}

/// The decimal that a float token denotes. Its digits, taken together as one
/// integer, must fit in an `i64`, and the digits of its exponent in a `u32`.
pub open spec fn decimal_of_text(t: Seq<char>) -> Option<Decimal> {
    let a = sign_len(t);
    let b = digit_run(t, a);
    let c = frac_end(t);
    let mag = digits_value(t.subrange(a, b) + t.subrange(b + 1, c));
    let e = digits_value(t.subrange(exp_start(t), t.len() as int));
    let exp: int = if c == t.len() {
        0
    } else if t[c + 1] == '-' {
        -e
    } else {
        e as int
    };
    if mag > i64::MAX || (c < t.len() && e > u32::MAX) {
        None
    } else {
        decimal_of(t[0] == '-', mag, (c - b - 1) - exp)
    }
}

proof fn lemma_digits_value_grows(s: Seq<char>, r: Seq<char>)
    ensures
        digits_value(s + r) >= digits_value(s),
    decreases r.len(),
{
    if r.len() > 0 {
        assert((s + r).drop_last() =~= s + r.drop_last());
        lemma_digits_value_grows(s, r.drop_last());
    } else {
        assert(s + r =~= s);
    }
}

/// Ends the run of digits that starts at `i`.
fn scan_digits(t: &Vec<char>, i: usize) -> (j: usize)
    requires
        i <= t@.len(),
    ensures
        j == digit_run(t@, i as int),
        i <= j <= t@.len(),
        all_digits(t@, i as int, j as int),
        j < t@.len() ==> !is_digit(t@[j as int]),
{
    let mut j = i;
    while j < t.len() && '0' <= t[j] && t[j] <= '9'
        invariant
            i <= j <= t@.len(),
            digit_run(t@, j as int) == digit_run(t@, i as int),
            all_digits(t@, i as int, j as int),
        decreases t@.len() - j,
    {
        j = j + 1;
    }
    j
}

/// Reads the digits `t[i..j]` after the digits `prefix` whose value is
/// `start`; `None` when the value of all of them exceeds `limit`.
fn read_digits(
    t: &Vec<char>,
    i: usize,
    j: usize,
    start: u64,
    limit: u64,
    Ghost(prefix): Ghost<Seq<char>>,
) -> (r: Option<u64>)
    requires
        i <= j <= t@.len(),
        all_digits(t@, i as int, j as int),
        start == digits_value(prefix),
        start <= limit,
    ensures
        match r {
            Some(v) => v == digits_value(prefix + t@.subrange(i as int, j as int)) && v <= limit,
            None => digits_value(prefix + t@.subrange(i as int, j as int)) > limit,
        },
{
    let mut acc = start;
    let mut k = i;
    while k < j
        invariant
            i <= k <= j <= t@.len(),
            all_digits(t@, i as int, j as int),
            acc == digits_value(prefix + t@.subrange(i as int, k as int)),
            acc <= limit,
        decreases j - k,
    {
        let ghost seen = prefix + t@.subrange(i as int, k as int);
        let ghost next = prefix + t@.subrange(i as int, k + 1);
        assert(next.drop_last() =~= seen);
        assert(next.last() == t@[k as int]);
        let d = (t[k] as u32 - '0' as u32) as u64;
        assert(is_digit(t@[k as int]));
        if d > limit || acc > (limit - d) / 10 {
            proof {
                assert(digits_value(next) > limit);
                assert(prefix + t@.subrange(i as int, j as int) =~= next + t@.subrange(k + 1, j as int));
                lemma_digits_value_grows(next, t@.subrange(k + 1, j as int));
            }
            return None;
        }
        acc = acc * 10 + d;
        k = k + 1;
    }
    Some(acc)
}

fn sign_len_exec(t: &Vec<char>, i: usize) -> (n: usize)
    requires
        i <= t@.len(),
    ensures
        n == sign_len(t@.subrange(i as int, t@.len() as int)),
{
    if i < t.len() && (t[i] == '+' || t[i] == '-') {
        1
    } else {
        0
    }
}

/// Whether `t` is an integer token.
pub fn is_integer(t: &Vec<char>) -> (r: bool)
    ensures
        r == is_integer_text(t@),
{
    let a = sign_len_exec(t, 0);
    assert(t@.subrange(0, t@.len() as int) =~= t@);
    a < t.len() && scan_digits(t, a) == t.len()
}

/// Whether `t` is a float token.
pub fn is_float(t: &Vec<char>) -> (r: bool)
    ensures
        r == is_float_text(t@),
{
    assert(t@.subrange(0, t@.len() as int) =~= t@);
    let a = sign_len_exec(t, 0);
    let b = scan_digits(t, a);
    if !(a < b && b < t.len() && t[b] == '.') {
        return false;
    }
    let c = scan_digits(t, b + 1);
    if !(b + 1 < c) {
        return false;
    }
    if c == t.len() {
        return true;
    }
    if !(c + 1 < t.len() && (t[c] == 'e' || t[c] == 'E')) {
        return false;
    }
    let d = c + 1 + sign_len_exec(t, c + 1);
    d < t.len() && scan_digits(t, d) == t.len()
}

/// The value of an integer token, or `None` when it does not fit in an `i64`.
pub fn parse_i64(t: &Vec<char>) -> (r: Option<i64>)
    requires
        is_integer_text(t@),
    ensures
        r == i64_of(t@),
{
    let neg = t[0] == '-';
    let a = sign_len_exec(t, 0);
    assert(t@.subrange(0, t@.len() as int) =~= t@);
    let limit: u64 = if neg {
        9223372036854775808
    } else {
        9223372036854775807
    };
    assert(digits_value(Seq::<char>::empty()) == 0);
    let m = read_digits(t, a, t.len(), 0, limit, Ghost(Seq::empty()));
    assert(Seq::<char>::empty() + t@.subrange(a as int, t@.len() as int) =~= t@.subrange(
        a as int,
        t@.len() as int,
    ));
    match m {
        Some(v) => {
            if neg {
                Some((0i128 - v as i128) as i64)
            } else {
                Some(v as i64)
            }
        },
        None => None,
    }
}

/// The unsigned number that `t` spells, or `None` when it is not one (an
/// optional `+` and digits) or does not fit in a `u32`.
pub fn parse_u32(t: &Vec<char>) -> (r: Option<u32>)
    ensures
        r == u32_of(t@),
{
    let a: usize = if t.len() > 0 && t[0] == '+' {
        1
    } else {
        0
    };
    if !(a < t.len()) {
        return None;
    }
    let e = scan_digits(t, a);
    if e != t.len() {
        return None;
    }
    assert(digits_value(Seq::<char>::empty()) == 0);
    let m = read_digits(t, a, t.len(), 0, 4294967295, Ghost(Seq::empty()));
    assert(Seq::<char>::empty() + t@.subrange(a as int, t@.len() as int) =~= t@.subrange(
        a as int,
        t@.len() as int,
    ));
    match m {
        Some(v) => Some(v as u32),
        None => None,
    }
}

/// Scales `mag` up by `10^k`, or `None` when the result exceeds `i64::MAX`.
fn scale_up(mag: u64, k: u64) -> (r: Option<u64>)
    requires
        1 <= mag <= i64::MAX,
    ensures
        match r {
            Some(v) => v == mag * pow10(k as nat) && v <= i64::MAX,
            None => mag * pow10(k as nat) > i64::MAX,
        },
{
    let mut v = mag;
    let mut i: u64 = 0;
    assert(pow10(0) == 1);
    assert(mag * pow10(0) == mag) by (nonlinear_arith)
        requires pow10(0) == 1;
    while i < k
        invariant
            i <= k,
            1 <= mag,
            v == mag * pow10(i as nat),
            v <= i64::MAX,
        decreases k - i,
    {
        if v > 922337203685477580 {
            proof {
                lemma_pow10_grows((i + 1) as nat, k as nat);
                assert(mag * pow10((i + 1) as nat) == 10 * v) by (nonlinear_arith)
                    requires v == mag * pow10(i as nat), pow10((i + 1) as nat) == 10 * pow10(i as nat);
                assert(mag * pow10((i + 1) as nat) <= mag * pow10(k as nat)) by (nonlinear_arith)
                    requires pow10((i + 1) as nat) <= pow10(k as nat), mag >= 1;
            }
            return None;
        }
        proof {
            assert(mag * pow10((i + 1) as nat) == 10 * v) by (nonlinear_arith)
                requires v == mag * pow10(i as nat), pow10((i + 1) as nat) == 10 * pow10(i as nat);
        }
        v = v * 10;
        i = i + 1;
    }
    Some(v)
}

/// The normal decimal for `mag * 10^(-sc)`, negated when `neg`.
fn make_decimal(neg: bool, mag: u64, sc: i128) -> (r: Option<Decimal>)
    requires
        mag <= i64::MAX,
        -u32::MAX <= sc <= 2 * u64::MAX,
    ensures
        r == decimal_of(neg, mag as nat, sc as int),
{
    if mag == 0 {
        return Some(Decimal { mantissa: 0, scale: 0 });
    }
    if sc <= 0 {
        match scale_up(mag, (0 - sc) as u64) {
            Some(v) => {
                let m: i64 = if neg {
                    0 - v as i64
                } else {
                    v as i64
                };
                Some(Decimal { mantissa: m, scale: 0 })
            },
            None => None,
        }
    } else {
        let mut m = mag;
        let mut s: i128 = sc;
        while s > 0 && m % 10 == 0
            invariant
                strip(m as nat, s as nat) == strip(mag as nat, sc as nat),
                m <= mag,
                0 <= s,
            decreases s,
        {
            m = m / 10;
            s = s - 1;
        }
        if s > 4294967295 {
            return None;
        }
        let mm: i64 = if neg {
            0 - m as i64
        } else {
            m as i64
        };
        Some(Decimal { mantissa: mm, scale: s as u32 })
    }
}

/// The digits of a float token before and after its decimal point, taken
/// together as one integer; `None` when that exceeds `i64::MAX`.
fn read_mantissa(t: &Vec<char>, a: usize, b: usize, c: usize) -> (r: Option<u64>)
    requires
        a <= b < c <= t@.len(),
        all_digits(t@, a as int, b as int),
        all_digits(t@, b + 1, c as int),
    ensures
        match r {
            Some(v) => v == digits_value(t@.subrange(a as int, b as int) + t@.subrange(b + 1, c as int))
                && v <= i64::MAX,
            None => digits_value(t@.subrange(a as int, b as int) + t@.subrange(b + 1, c as int)) > i64::MAX,
        },
{
    let ghost ip = t@.subrange(a as int, b as int);
    assert(digits_value(Seq::<char>::empty()) == 0);
    assert(Seq::<char>::empty() + ip =~= ip);
    let mag = match read_digits(t, a, b, 0, 9223372036854775807, Ghost(Seq::empty())) {
        Some(v) => v,
        None => {
            proof {
                lemma_digits_value_grows(ip, t@.subrange(b + 1, c as int));
            }
            return None;
        },
    };
    read_digits(t, b + 1, c, mag, 9223372036854775807, Ghost(ip))
}

/// The digits of an exponent that start at `d`; `None` when they exceed `u32::MAX`.
fn read_exponent(t: &Vec<char>, d: usize) -> (r: Option<u64>)
    requires
        d <= t@.len(),
        all_digits(t@, d as int, t@.len() as int),
    ensures
        match r {
            Some(v) => v == digits_value(t@.subrange(d as int, t@.len() as int)) && v <= u32::MAX,
            None => digits_value(t@.subrange(d as int, t@.len() as int)) > u32::MAX,
        },
{
    let ghost ep = t@.subrange(d as int, t@.len() as int);
    assert(digits_value(Seq::<char>::empty()) == 0);
    assert(Seq::<char>::empty() + ep =~= ep);
    read_digits(t, d, t.len(), 0, 4294967295, Ghost(Seq::empty()))
}

/// The decimal that a float token denotes, or `None` when its digits do not
/// fit (see `decimal_of_text`).
pub fn parse_decimal(t: &Vec<char>) -> (r: Option<Decimal>)
    requires
        is_float_text(t@),
    ensures
        r == decimal_of_text(t@),
{
    assert(t@.subrange(0, t@.len() as int) =~= t@);
    let neg = t[0] == '-';
    let a = sign_len_exec(t, 0);
    assert(a == sign_len(t@));
    let n = t.len();
    let b = scan_digits(t, a);
    assert(b == digit_run(t@, sign_len(t@)));
    assert(b < t@.len());
    let c = scan_digits(t, b + 1);
    assert(c == frac_end(t@));
    let mag = match read_mantissa(t, a, b, c) {
        Some(v) => v,
        None => return None,
    };
    let mut exp: i128 = 0;
    if c < t.len() {
        let d = c + 1 + sign_len_exec(t, c + 1);
        let e = match read_exponent(t, d) {
            Some(v) => v,
            None => return None,
        };
        if t[c + 1] == '-' {
            exp = 0 - e as i128;
        } else {
            exp = e as i128;
        }
    }
    make_decimal(neg, mag, (c - b - 1) as i128 - exp)
}

} // verus!
