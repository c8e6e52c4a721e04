//! Decimal reading and writing of integers and of fixed-point amounts.
//!
//! Prices, price changes, percentages and alert thresholds are held as whole
//! numbers of hundredths ("cents"): `95050` stands for `950.50`.

use vstd::prelude::*;
use crate::text::{push_char, to_chars};

verus! {

pub open spec fn digit_char(d: int) -> char {
    ('0' as int + d) as char
}

pub open spec fn is_digit(c: char) -> bool {
    '0' <= c <= '9'
}

pub open spec fn digit_value(c: char) -> int {
    c as int - '0' as int
}

/// The decimal digits of `n`, without leading zeros (`"0"` for zero).
pub open spec fn digits_of(n: nat) -> Seq<char>
    decreases n,
{
    if n < 10 {
        seq![digit_char(n as int)]
    } else {
        digits_of(n / 10) + seq![digit_char((n % 10) as int)]
    }
}

/// `i64::to_string` and friends: an optional `-` and the digits of the magnitude.
pub open spec fn int_text(n: int) -> Seq<char> {
    if n < 0 {
        seq!['-'] + digits_of((-n) as nat)
    } else {
        digits_of(n as nat)
    }
}

/// Appends the decimal digits of `n` to `out`.
pub fn push_digits(out: &mut String, n: u64)
    ensures
        final(out)@ == old(out)@ + digits_of(n as nat),
    decreases n,
{
    if n >= 10 {
        push_digits(out, n / 10);
    }
    let c = digit(n % 10);
    push_char(out, c);
    proof {
        if n >= 10 {
            assert(old(out)@ + digits_of(n as nat) =~= old(out)@ + digits_of((n / 10) as nat) + seq![c]);
        } else {
            assert(digits_of(n as nat) =~= seq![c]);
        }
    }
}

/// Appends the decimal text of `n` (with `-` when negative).
pub fn push_int(out: &mut String, n: i64)
    ensures
        final(out)@ == old(out)@ + int_text(n as int),
{
    if n < 0 {
        push_char(out, '-');
        let m: u64 = (0i128 - n as i128) as u64;
        push_digits(out, m);
        assert(final(out)@ =~= old(out)@ + int_text(n as int));
    } else {
        push_digits(out, n as u64);
    }
}

/// `n.to_string()`.
pub fn int_to_text(n: i64) -> (s: String)
    ensures
        s@ == int_text(n as int),
{
    let mut s = String::new();
    push_int(&mut s, n);
    assert(Seq::<char>::empty() + int_text(n as int) =~= int_text(n as int));
    s
}

// ---------------------------------------------------------------------
// Fixed-point amounts (hundredths)

pub open spec fn abs(n: int) -> int {
    if n < 0 { -n } else { n }
}

pub open spec fn sign_text(n: int) -> Seq<char> {
    if n < 0 { seq!['-'] } else { seq![] }
}

/// Two decimal places, as `{:.2}` writes the `f64` nearest to an amount of
/// hundredths (see `float_hundredths`): `-1.50`.
pub open spec fn fixed2_text(v: int) -> Seq<char> {
    let h = float_hundredths(abs(v) as nat);
    sign_text(v) + digits_of(h / 100) + seq!['.', digit_char(((h / 10) % 10) as int), digit_char((h % 10) as int)]
}

/// Two decimal places with the sign always written, as `{:+.2}` does: `+1.50`.
pub open spec fn signed_fixed2_text(v: int) -> Seq<char> {
    if v < 0 { fixed2_text(v) } else { seq!['+'] + fixed2_text(v) }
}

/// `2^n`.
pub open spec fn two_pow(n: nat) -> nat
    decreases n,
{
    if n == 0 { 1 } else { 2 * two_pow((n - 1) as nat) }
}

/// `a / b` rounded to the nearest whole number, halves to the even one.
pub open spec fn div_round_even(a: nat, b: nat) -> nat {
    let q = a / b;
    let r = a % b;
    if 2 * r > b {
        q + 1
    } else if 2 * r < b {
        q
    } else if q % 2 == 0 {
        q
    } else {
        q + 1
    }
}

/// The least `j >= from` (at most 64) with `m * 2^j >= 1600 * 2^52`.
pub open spec fn scale_from(m: nat, from: nat) -> nat
    decreases 64 - from,
{
    if from >= 64 || m * two_pow(from) >= 1600 * two_pow(52) {
        from
    } else {
        scale_from(m, from + 1)
    }
}

/// The `f64` nearest to `m / 100` (for `1 <= m <= 2^63`), as its
/// significand: with `j = scale_from(m, 0)` and `E = 56 - j` the binary
/// exponent of `m / 100` (`2^E <= m / 100 < 2^(E + 1)`), the float is
/// `N * 2^(E - 52)`, `N` being `m / 100 * 2^(52 - E) = m * 2^j / 1600`
/// rounded to the nearest whole number, halves to even; its value is
/// `16 * N / 2^j`.
pub open spec fn float_significand(m: nat) -> nat {
    div_round_even(m * two_pow(scale_from(m, 0)), 1600)
}

/// The `f64` nearest to `m / 100`, times `unit / 16`, rounded to a whole
/// number, halves to even: with `unit` 160 its tenths, with 1600 its
/// hundredths. `{:.1}` and `{:.2}` write the float's exact value rounded so,
/// halves to even.
pub open spec fn float_scaled(m: nat, unit: nat) -> nat {
    if m == 0 {
        0
    } else {
        div_round_even(unit * float_significand(m), two_pow(scale_from(m, 0)))
    }
}

/// The `f64` nearest to `m / 100` in tenths, rounded as `{:.1}` does.
pub open spec fn float_tenths(m: nat) -> nat {
    float_scaled(m, 160)
}

/// The `f64` nearest to `m / 100` in hundredths, rounded as `{:.2}` does:
/// `m` itself wherever the float is within half a hundredth of `m / 100`.
pub open spec fn float_hundredths(m: nat) -> nat {
    float_scaled(m, 1600)
}

/// One decimal place, as `{:.1}` writes the `f64` nearest to an amount of
/// hundredths: the float's exact value rounded to tenths, halves to even.
/// `2.25` is held exactly and written `2.2`; `2.55` is held just below
/// and written `2.5`; `2.35` is held just above and written `2.4`.
pub open spec fn fixed1_text(v: int) -> Seq<char> {
    let t = float_tenths(abs(v) as nat);
    sign_text(v) + digits_of(t / 10) + seq!['.', digit_char((t % 10) as int)]
}

/// The shortest text of an amount, as `{}` writes a number: `900`, `2.5`, `2.25`.
pub open spec fn plain_text(v: int) -> Seq<char> {
    let m = abs(v);
    let whole = sign_text(v) + digits_of((m / 100) as nat);
    if m % 100 == 0 {
        whole
    } else if m % 10 == 0 {
        whole + seq!['.', digit_char((m / 10) % 10)]
    } else {
        whole + seq!['.', digit_char((m / 10) % 10), digit_char(m % 10)]
    }
}

fn digit(d: u64) -> (c: char)
    requires
        d < 10,
    ensures
        c == digit_char(d as int),
{
    match d {
        0 => '0',
        1 => '1',
        2 => '2',
        3 => '3',
        4 => '4',
        5 => '5',
        6 => '6',
        7 => '7',
        8 => '8',
        _ => '9',
    }
}

pub fn magnitude(v: i64) -> (m: u64)
    ensures
        m as int == abs(v as int),
{
    if v < 0 {
        (0i128 - v as i128) as u64
    } else {
        v as u64
    }
}

/// Appends `fixed2_text(v)`.
pub fn push_fixed2(out: &mut String, v: i64)
    ensures
        final(out)@ == old(out)@ + fixed2_text(v as int),
{
    let m = magnitude(v);
    let h = float_scaled_of(m, 1600);
    if v < 0 {
        push_char(out, '-');
    }
    push_wide_digits(out, h / 100);
    push_char(out, '.');
    push_char(out, digit(((h / 10) % 10) as u64));
    push_char(out, digit((h % 10) as u64));
    assert(final(out)@ =~= old(out)@ + fixed2_text(v as int));
}

/// Appends `signed_fixed2_text(v)`.
pub fn push_signed_fixed2(out: &mut String, v: i64)
    ensures
        final(out)@ == old(out)@ + signed_fixed2_text(v as int),
{
    if v >= 0 {
        push_char(out, '+');
    }
    push_fixed2(out, v);
    assert(final(out)@ =~= old(out)@ + signed_fixed2_text(v as int));
}

/// `div_round_even(a, b)`.
fn round_div_even(a: u128, b: u128) -> (r: u128)
    requires
        b > 0,
        a < 0xffff_ffff_ffff_ffff_ffff_ffff_ffff_fff0,
    ensures
        r as nat == div_round_even(a as nat, b as nat),
        r <= a / b + 1,
{
    let q = a / b;
    let rem = a % b;
    if rem > b - rem {
        q + 1
    } else if rem < b - rem {
        q
    } else if q % 2 == 0 {
        q
    } else {
        q + 1
    }
}

/// Appends the decimal digits of `n`.
pub fn push_wide_digits(out: &mut String, n: u128)
    ensures
        final(out)@ == old(out)@ + digits_of(n as nat),
    decreases n,
{
    if n >= 10 {
        push_wide_digits(out, n / 10);
    }
    let c = digit((n % 10) as u64);
    push_char(out, c);
    proof {
        if n >= 10 {
            assert(old(out)@ + digits_of(n as nat) =~= old(out)@ + digits_of((n / 10) as nat) + seq![c]);
        } else {
            assert(digits_of(n as nat) =~= seq![c]);
        }
    }
}

pub proof fn lemma_two_pow_le(i: nat, j: nat)
    requires
        i <= j,
    ensures
        two_pow(i) <= two_pow(j),
    decreases j - i,
{
    if i < j {
        lemma_two_pow_le(i, (j - 1) as nat);
        assert(two_pow(j) == 2 * two_pow((j - 1) as nat));
    }
}

/// `float_scaled(m, unit)`.
fn float_scaled_of(m: u64, unit: u128) -> (t: u128)
    requires
        m <= 0x8000_0000_0000_0000,
        1 <= unit <= 1600,
    ensures
        t as nat == float_scaled(m as nat, unit as nat),
{
    if m == 0 {
        return 0;
    }
    let (n, p) = float_parts(m);
    proof {
        assert((unit as nat) * (n as nat) <= 0x4000_0000_0000_0000_0000_0000_0000_0000 + 1600) by (nonlinear_arith)
            requires n <= 53169119831396634916152282411213784u128, unit <= 1600;
    }
    round_div_even(unit * n, p)
}

/// The whole part of the `f64` nearest to `m / 100`, as `as i64` keeps it
/// (see `float_significand`).
pub open spec fn float_whole(m: nat) -> nat {
    if m == 0 {
        0
    } else {
        (16 * float_significand(m)) / two_pow(scale_from(m, 0))
    }
}

/// `float_whole(m)`.
pub fn float_whole_of(m: u64) -> (t: u128)
    requires
        m <= 0x8000_0000_0000_0000,
    ensures
        t as nat == float_whole(m as nat),
        t < 0x1000_0000_0000_0000_0000_0000_0000_0000,
{
    if m == 0 {
        return 0;
    }
    let (n, p) = float_parts(m);
    let t = (16 * n) / p;
    t
}

/// The significand of the `f64` nearest to `m / 100` and the power of two
/// that scales it (see `float_significand`).
fn float_parts(m: u64) -> (r: (u128, u128))
    requires
        1 <= m <= 0x8000_0000_0000_0000,
    ensures
        r.0 as nat == float_significand(m as nat),
        r.0 <= 53169119831396634916152282411213784u128,
        r.1 as nat == two_pow(scale_from(m as nat, 0)),
        r.1 >= 1,
{
    let limit: u128 = 1600 * 0x10_0000_0000_0000;
    proof {
        reveal_with_fuel(two_pow, 64);
        assert(two_pow(52) == 0x10_0000_0000_0000);
        assert(two_pow(63) == 0x8000_0000_0000_0000);
    }
    let mut j: u32 = 0;
    let mut p: u128 = 1;
    proof {
        lemma_two_pow_le(0, 63);
    }
    while j < 63
        invariant
            j <= 63,
            1 <= m <= 0x8000_0000_0000_0000,
            p as nat == two_pow(j as nat),
            two_pow(63) == 0x8000_0000_0000_0000,
            p <= 0x8000_0000_0000_0000,
            limit as nat == 1600 * two_pow(52),
            limit < 0x8000_0000_0000_0000,
            scale_from(m as nat, j as nat) == scale_from(m as nat, 0),
        ensures
            j <= 63,
            p as nat == two_pow(j as nat),
            p <= 0x8000_0000_0000_0000,
            scale_from(m as nat, j as nat) == scale_from(m as nat, 0),
            (m as nat) * (p as nat) >= limit || j == 63,
        decreases 63 - j,
    {
        proof {
            assert((m as nat) * (p as nat) <= 0x8000_0000_0000_0000 * 0x8000_0000_0000_0000) by (nonlinear_arith)
                requires m <= 0x8000_0000_0000_0000, p <= 0x8000_0000_0000_0000;
        }
        if (m as u128) * p >= limit {
            break;
        }
        proof {
            assert(two_pow((j + 1) as nat) == 2 * two_pow(j as nat));
            lemma_two_pow_le((j + 1) as nat, 63);
        }
        p = p * 2;
        j = j + 1;
    }
    proof {
        assert((m as nat) * (p as nat) >= p) by (nonlinear_arith)
            requires m >= 1;
    }
    let ghost jj = scale_from(m as nat, 0);
    proof {
        assert((m as nat) * two_pow(j as nat) >= 1600 * two_pow(52));
        assert(scale_from(m as nat, j as nat) == j as nat);
        assert(jj == j as nat);
        assert((m as nat) * (p as nat) <= 0x8000_0000_0000_0000 * 0x8000_0000_0000_0000) by (nonlinear_arith)
            requires m <= 0x8000_0000_0000_0000, p <= 0x8000_0000_0000_0000;
    }
    let a: u128 = (m as u128) * p;
    let n = round_div_even(a, 1600);
    assert(n as nat == float_significand(m as nat));
    proof {
        vstd::arithmetic::div_mod::lemma_div_is_ordered(a as int, 0x4000_0000_0000_0000_0000_0000_0000_0000int, 1600);
    }
    (n, p)
}

/// Appends `fixed1_text(v)`.
pub fn push_fixed1(out: &mut String, v: i64)
    ensures
        final(out)@ == old(out)@ + fixed1_text(v as int),
{
    let m = magnitude(v);
    let t = float_scaled_of(m, 160);
    if v < 0 {
        push_char(out, '-');
    }
    push_wide_digits(out, t / 10);
    push_char(out, '.');
    push_char(out, digit((t % 10) as u64));
    assert(final(out)@ =~= old(out)@ + fixed1_text(v as int));
}

/// Appends `plain_text(v)`.
pub fn push_plain(out: &mut String, v: i64)
    ensures
        final(out)@ == old(out)@ + plain_text(v as int),
{
    let m = magnitude(v);
    if v < 0 {
        push_char(out, '-');
    }
    push_digits(out, m / 100);
    if m % 100 != 0 {
        push_char(out, '.');
        push_char(out, digit((m / 10) % 10));
        if m % 10 != 0 {
            push_char(out, digit(m % 10));
        }
    }
    assert(final(out)@ =~= old(out)@ + plain_text(v as int));
}

// ---------------------------------------------------------------------
// Reading integers (`str::parse` of the integer types)

/// The value of a run of decimal digits.
pub open spec fn digits_value(s: Seq<char>) -> nat
    decreases s.len(),
{
    if s.len() == 0 {
        0
    } else {
        digits_value(s.drop_last()) * 10 + (digit_value(s.last()) as nat)
    }
}

pub open spec fn all_digits(s: Seq<char>) -> bool {
    forall|i: int| 0 <= i < s.len() ==> is_digit(#[trigger] s[i])
}

/// A non-empty run of digits, and its value.
pub open spec fn unsigned_value(s: Seq<char>) -> Option<int> {
    if s.len() > 0 && all_digits(s) {
        Some(digits_value(s) as int)
    } else {
        None
    }
}

/// What `str::parse` of a signed integer type reads, before the range check:
/// an optional `+` or `-`, then one or more ASCII digits, nothing else.
pub open spec fn signed_int_value(s: Seq<char>) -> Option<int> {
    if s.len() > 0 && s[0] == '-' {
        match unsigned_value(s.drop_first()) {
            Some(v) => Some(-v),
            None => None,
        }
    } else if s.len() > 0 && s[0] == '+' {
        unsigned_value(s.drop_first())
    } else {
        unsigned_value(s)
    }
}

/// What `str::parse` of an unsigned integer type reads, before the range check:
/// an optional `+`, then one or more ASCII digits, nothing else.
pub open spec fn unsigned_int_value(s: Seq<char>) -> Option<int> {
    if s.len() > 0 && s[0] == '+' {
        unsigned_value(s.drop_first())
    } else {
        unsigned_value(s)
    }
}

/// `Some(v)` where `o` is `Some(v)` with `lo <= v <= hi`.
pub open spec fn in_range(o: Option<int>, lo: int, hi: int) -> Option<int> {
    match o {
        Some(v) => if lo <= v <= hi { Some(v) } else { None },
        None => None,
    }
}

pub proof fn lemma_digits_value_push(s: Seq<char>, c: char)
    requires
        is_digit(c),
    ensures
        digits_value(s.push(c)) == digits_value(s) * 10 + digit_value(c),
{
    assert(s.push(c).drop_last() =~= s);
}

/// The value of the digits `v[from..to]`, capped at `2^64`; `None` unless they
/// are one or more ASCII digits.
pub fn read_digits(v: &Vec<char>, from: usize, to: usize) -> (r: Option<u128>)
    requires
        from <= to <= v.len(),
    ensures
        r is Some <==> unsigned_value(v@.subrange(from as int, to as int)) is Some,
        r matches Some(x) ==> (x as int == if digits_value(v@.subrange(from as int, to as int)) < 0x1_0000_0000_0000_0000 {
            digits_value(v@.subrange(from as int, to as int)) as int
        } else {
            0x1_0000_0000_0000_0000
        }),
{
    let cap: u128 = 0x1_0000_0000_0000_0000;
    if from == to {
        return None;
    }
    let mut acc: u128 = 0;
    let mut i = from;
    while i < to
        invariant
            from <= i <= to <= v.len(),
            cap == 0x1_0000_0000_0000_0000,
            all_digits(v@.subrange(from as int, i as int)),
            acc <= cap,
            acc as int == if digits_value(v@.subrange(from as int, i as int)) < cap {
                digits_value(v@.subrange(from as int, i as int)) as int
            } else {
                cap as int
            },
        decreases to - i,
    {
        let c = v[i];
        if !('0' <= c && c <= '9') {
            proof {
                assert(v@.subrange(from as int, to as int)[i - from] == c);
            }
            return None;
        }
        let d = (c as u32 - '0' as u32) as u128;
        proof {
            lemma_digits_value_push(v@.subrange(from as int, i as int), c);
            assert(v@.subrange(from as int, i + 1) =~= v@.subrange(from as int, i as int).push(c));
        }
        if acc >= cap {
            acc = cap;
        } else {
            let next = acc * 10 + d;
            acc = if next >= cap { cap } else { next };
        }
        i = i + 1;
        proof {
            assert forall|k: int| 0 <= k < v@.subrange(from as int, i as int).len() implies is_digit(
                #[trigger] v@.subrange(from as int, i as int)[k],
            ) by {
                if k < i - 1 - from {
                    assert(v@.subrange(from as int, i as int)[k] == v@.subrange(from as int, i - 1)[k]);
                }
            }
        }
    }
    Some(acc)
}

/// `s.parse::<i64>()`, as an `Option`.
pub fn parse_i64(s: &str) -> (r: Option<i64>)
    ensures
        r is Some <==> in_range(signed_int_value(s@), i64::MIN as int, i64::MAX as int) is Some,
        r matches Some(x) ==> in_range(signed_int_value(s@), i64::MIN as int, i64::MAX as int) == Some(x as int),
{
    let v = to_chars(s);
    let n = v.len();
    let neg = n > 0 && v[0] == '-';
    let start: usize = if n > 0 && (v[0] == '-' || v[0] == '+') { 1 } else { 0 };
    proof {
        assert(v@.subrange(1, n as int) =~= v@.drop_first());
        assert(v@.subrange(0, n as int) =~= v@);
    }
    match read_digits(&v, start, n) {
        None => None,
        Some(m) => {
            if neg {
                if m <= 0x8000_0000_0000_0000 {
                    Some((0i128 - m as i128) as i64)
                } else {
                    None
                }
            } else if m <= 0x7FFF_FFFF_FFFF_FFFF {
                Some(m as i64)
            } else {
                None
            }
        },
    }
}

/// `s.parse::<i32>()`, as an `Option`.
pub fn parse_i32(s: &str) -> (r: Option<i32>)
    ensures
        r is Some <==> in_range(signed_int_value(s@), i32::MIN as int, i32::MAX as int) is Some,
        r matches Some(x) ==> in_range(signed_int_value(s@), i32::MIN as int, i32::MAX as int) == Some(x as int),
{
    match parse_i64(s) {
        Some(x) => if i32::MIN as i64 <= x && x <= i32::MAX as i64 { Some(x as i32) } else { None },
        None => None,
    }
}

/// `s.parse::<u32>()`, as an `Option`.
pub fn parse_u32(s: &str) -> (r: Option<u32>)
    ensures
        r is Some <==> in_range(unsigned_int_value(s@), 0, u32::MAX as int) is Some,
        r matches Some(x) ==> in_range(unsigned_int_value(s@), 0, u32::MAX as int) == Some(x as int),
{
    let v = to_chars(s);
    let n = v.len();
    let start: usize = if n > 0 && v[0] == '+' { 1 } else { 0 };
    proof {
        assert(v@.subrange(1, n as int) =~= v@.drop_first());
        assert(v@.subrange(0, n as int) =~= v@);
    }
    match read_digits(&v, start, n) {
        None => None,
        Some(m) => if m <= 0xFFFF_FFFF { Some(m as u32) } else { None },
    }
}


// ---------------------------------------------------------------------
// Reading amounts: a decimal number rounded to hundredths

/// The text after an optional leading sign.
pub open spec fn unsigned_body(s: Seq<char>) -> Seq<char> {
    if s.len() > 0 && (s[0] == '-' || s[0] == '+') { s.drop_first() } else { s }
}

pub open spec fn whole_part(b: Seq<char>) -> Seq<char> {
    b.take(crate::text::char_pos(b, '.'))
}

pub open spec fn frac_part(b: Seq<char>) -> Seq<char> {
    let k = crate::text::char_pos(b, '.');
    if k < b.len() { b.skip(k + 1) } else { seq![] }
}

/// `10^n`.
pub open spec fn pow10(n: nat) -> nat
    decreases n,
{
    if n == 0 { 1 } else { 10 * pow10((n - 1) as nat) }
}

/// `n · 10^e` rounded to a whole number, halves away from zero.
pub open spec fn scaled_rounded(n: nat, e: int) -> nat {
    if e >= 0 {
        n * pow10(e as nat)
    } else {
        let p = pow10((-e) as nat);
        (n + p / 2) / p
    }
}

pub open spec fn is_exp_mark(c: char) -> bool {
    c == 'e' || c == 'E'
}

/// The index of the first `e` or `E` of `b`, or its length.
pub open spec fn exp_pos(b: Seq<char>) -> int
    decreases b.len(),
{
    if b.len() == 0 {
        0
    } else if is_exp_mark(b[0]) {
        0
    } else {
        1 + exp_pos(b.drop_first())
    }
}

/// The number before its exponent.
pub open spec fn mantissa(b: Seq<char>) -> Seq<char> {
    b.take(exp_pos(b))
}

/// The exponent of a number: zero where it has none, else what follows
/// the `e` or `E` read as an optional sign and one or more digits.
pub open spec fn exponent_value(b: Seq<char>) -> Option<int> {
    let k = exp_pos(b);
    if k < b.len() { signed_int_value(b.skip(k + 1)) } else { Some(0) }
}

/// A decimal number read as hundredths, in the grammar in which
/// `str::parse::<f64>` reads numbers written with digits: an optional `+`
/// or `-`; digits with an optional `.`, at least one digit in all; an
/// optional exponent, `e` or `E` then an optional sign and digits. The value
/// is rounded to hundredths, halves away from zero. `None` for any other
/// text.
pub open spec fn amount_value(s: Seq<char>) -> Option<int> {
    let b = unsigned_body(s);
    let m = mantissa(b);
    let w = whole_part(m);
    let f = frac_part(m);
    match exponent_value(b) {
        Some(e) => if all_digits(w) && all_digits(f) && w.len() + f.len() > 0 {
            let mag = scaled_rounded(digits_value(w + f), e + 2 - f.len());
            Some(if s.len() > 0 && s[0] == '-' { -mag } else { mag as int })
        } else {
            None
        },
        None => None,
    }
}

/// `v` brought into `i64`: a value beyond it is held as the nearest bound.
pub open spec fn saturated(v: int) -> i64 {
    if v < i64::MIN { i64::MIN } else if v > i64::MAX { i64::MAX } else { v as i64 }
}

/// A threshold as an `f64` holds it: an amount of hundredths, plus or minus
/// infinity, or not a number.
#[derive(Debug, Clone, Copy, PartialEq, Eq, Structural)]
pub enum Threshold {
    Amount(i64),
    PlusInfinity,
    MinusInfinity,
    NotANumber,
}

/// Whether `c` is `w`, or the upper-case ASCII letter of the lower-case `w`.
pub open spec fn same_letter_any_case(c: char, w: char) -> bool {
    c == w || ('a' <= w <= 'z' && 'A' <= c <= 'Z' && c as int - 'A' as int == w as int - 'a' as int)
}

/// Whether `s` is the lower-case `word`, with its letters in either case.
pub open spec fn is_word_any_case(s: Seq<char>, word: Seq<char>) -> bool {
    s.len() == word.len() && forall|i: int| 0 <= i < s.len() ==> same_letter_any_case(#[trigger] s[i], word[i])
}

/// What `str::parse::<f64>` reads, as a threshold: after an optional sign,
/// `inf` or `infinity` in any case is an infinity of that sign, and `nan` in
/// any case is not a number; a number written with digits is read by
/// `amount_value`, a value beyond `i64` hundredths held as the nearest
/// bound; `None` for any other text.
pub open spec fn threshold_value(s: Seq<char>) -> Option<Threshold> {
    let b = unsigned_body(s);
    if is_word_any_case(b, "inf"@) || is_word_any_case(b, "infinity"@) {
        Some(if s.len() > 0 && s[0] == '-' { Threshold::MinusInfinity } else { Threshold::PlusInfinity })
    } else if is_word_any_case(b, "nan"@) {
        Some(Threshold::NotANumber)
    } else {
        match amount_value(s) {
            Some(v) => Some(Threshold::Amount(saturated(v))),
            None => None,
        }
    }
}

/// Whether `v[from..]` is the lower-case `word` with its letters in either case.
fn word_any_case(v: &Vec<char>, from: usize, word: &str) -> (r: bool)
    requires
        from <= v.len(),
    ensures
        r == is_word_any_case(v@.skip(from as int), word@),
{
    let w = crate::text::to_chars(word);
    let ghost t = v@.skip(from as int);
    if v.len() - from != w.len() {
        return false;
    }
    let mut i: usize = 0;
    while i < w.len()
        invariant
            v.len() - from == w.len(),
            w@ == word@,
            t == v@.skip(from as int),
            i <= w.len(),
            forall|k: int| 0 <= k < i ==> same_letter_any_case(#[trigger] t[k], w@[k]),
        decreases w.len() - i,
    {
        let c = v[from + i];
        let d = w[i];
        assert(t[i as int] == c);
        let same = c == d || ('a' <= d && d <= 'z' && 'A' <= c && c <= 'Z'
            && c as u32 - 'A' as u32 == d as u32 - 'a' as u32);
        if !same {
            return false;
        }
        assert(same_letter_any_case(t[i as int], w@[i as int]));
        i = i + 1;
    }
    true
}

/// Reads a threshold as `str::parse::<f64>` does (see `threshold_value`).
pub fn parse_threshold(s: &str) -> (r: Option<Threshold>)
    ensures
        r == threshold_value(s@),
{
    let v = to_chars(s);
    let n = v.len();
    let start: usize = if n > 0 && (v[0] == '-' || v[0] == '+') { 1 } else { 0 };
    proof {
        assert(v@.skip(start as int) =~= unsigned_body(s@));
    }
    if word_any_case(&v, start, "inf") || word_any_case(&v, start, "infinity") {
        if n > 0 && v[0] == '-' {
            return Some(Threshold::MinusInfinity);
        } else {
            return Some(Threshold::PlusInfinity);
        }
    }
    if word_any_case(&v, start, "nan") {
        return Some(Threshold::NotANumber);
    }
    match parse_amount(s) {
        Some(x) => Some(Threshold::Amount(x)),
        None => None,
    }
}

/// How a float writes the values beyond amounts: `inf`, `-inf`, `NaN`.
pub open spec fn special_text(t: Threshold) -> Seq<char> {
    match t {
        Threshold::MinusInfinity => "-inf"@,
        Threshold::NotANumber => "NaN"@,
        _ => "inf"@,
    }
}

/// A threshold as `{}` writes it.
pub open spec fn threshold_plain_text(t: Threshold) -> Seq<char> {
    match t {
        Threshold::Amount(v) => plain_text(v as int),
        _ => special_text(t),
    }
}

/// A threshold as `{:.2}` writes it.
pub open spec fn threshold_fixed2_text(t: Threshold) -> Seq<char> {
    match t {
        Threshold::Amount(v) => fixed2_text(v as int),
        _ => special_text(t),
    }
}

/// A threshold as `{:.1}` writes it.
pub open spec fn threshold_fixed1_text(t: Threshold) -> Seq<char> {
    match t {
        Threshold::Amount(v) => fixed1_text(v as int),
        _ => special_text(t),
    }
}

/// The magnitude of a threshold as `{:.1}` writes it (`f64::abs`, then
/// `{:.1}`): either infinity is `inf`.
pub open spec fn threshold_abs_fixed1_text(t: Threshold) -> Seq<char> {
    match t {
        Threshold::Amount(v) => fixed1_text(abs(v as int)),
        Threshold::NotANumber => "NaN"@,
        _ => "inf"@,
    }
}

/// Appends `special_text(t)`.
fn push_special(out: &mut String, t: Threshold)
    ensures
        final(out)@ == old(out)@ + special_text(t),
{
    match t {
        Threshold::MinusInfinity => out.append("-inf"),
        Threshold::NotANumber => out.append("NaN"),
        _ => out.append("inf"),
    }
}

/// Appends `threshold_plain_text(t)`.
pub fn push_threshold_plain(out: &mut String, t: Threshold)
    ensures
        final(out)@ == old(out)@ + threshold_plain_text(t),
{
    match t {
        Threshold::Amount(v) => push_plain(out, v),
        _ => push_special(out, t),
    }
}

/// Appends `threshold_fixed2_text(t)`.
pub fn push_threshold_fixed2(out: &mut String, t: Threshold)
    ensures
        final(out)@ == old(out)@ + threshold_fixed2_text(t),
{
    match t {
        Threshold::Amount(v) => push_fixed2(out, v),
        _ => push_special(out, t),
    }
}

/// Appends `threshold_fixed1_text(t)`.
pub fn push_threshold_fixed1(out: &mut String, t: Threshold)
    ensures
        final(out)@ == old(out)@ + threshold_fixed1_text(t),
{
    match t {
        Threshold::Amount(v) => push_fixed1(out, v),
        _ => push_special(out, t),
    }
}

/// Appends `threshold_abs_fixed1_text(t)`.
pub fn push_threshold_abs_fixed1(out: &mut String, t: Threshold)
    ensures
        final(out)@ == old(out)@ + threshold_abs_fixed1_text(t),
{
    match t {
        Threshold::Amount(v) => {
            let m = magnitude(v);
            let x = float_scaled_of(m, 160);
            push_wide_digits(out, x / 10);
            push_char(out, '.');
            push_char(out, digit((x % 10) as u64));
            assert(final(out)@ =~= old(out)@ + threshold_abs_fixed1_text(t));
        },
        Threshold::NotANumber => out.append("NaN"),
        _ => out.append("inf"),
    }
}

pub proof fn lemma_pow10_positive(n: nat)
    ensures
        pow10(n) >= 1,
    decreases n,
{
    if n > 0 {
        lemma_pow10_positive((n - 1) as nat);
    }
}

pub proof fn lemma_pow10_add(a: nat, b: nat)
    ensures
        pow10(a + b) == pow10(a) * pow10(b),
    decreases b,
{
    if b > 0 {
        let b1 = (b - 1) as nat;
        lemma_pow10_add(a, b1);
        let s: nat = a + b;
        assert(pow10(s) == 10 * pow10((s - 1) as nat));
        assert((s - 1) as nat == a + b1);
        assert(pow10(b) == 10 * pow10(b1));
        let x = pow10(a);
        let y = pow10(b1);
        assert(10 * (x * y) == x * (10 * y)) by (nonlinear_arith);
    } else {
        assert(pow10(0) == 1);
        assert(a + b == a);
    }
}

/// The digits `a` then `b`: the value of `a` shifted by the length of `b`.
pub proof fn lemma_digits_value_concat(a: Seq<char>, b: Seq<char>)
    ensures
        digits_value(a + b) == digits_value(a) * pow10(b.len()) + digits_value(b),
    decreases b.len(),
{
    if b.len() == 0 {
        assert(a + b =~= a);
        assert(pow10(0) == 1);
        assert(digits_value(b) == 0);
    } else {
        let b0 = b.drop_last();
        lemma_digits_value_concat(a, b0);
        let ab = a + b;
        assert(ab.drop_last() =~= a + b0);
        assert(ab.last() == b.last());
        let c = digit_value(b.last()) as nat;
        let x = digits_value(a);
        let y = digits_value(b0);
        let p = pow10(b0.len());
        assert(digits_value(ab) == digits_value(ab.drop_last()) * 10 + (digit_value(ab.last()) as nat));
        assert(digits_value(ab) == (x * p + y) * 10 + c);
        assert(digits_value(b) == y * 10 + c);
        assert(b0.len() == (b.len() - 1) as nat);
        assert(pow10(b.len()) == 10 * p);
        assert((x * p + y) * 10 + c == x * (10 * p) + (y * 10 + c)) by (nonlinear_arith);
    }
}

/// A run of `n` digits is worth less than `10^n`.
pub proof fn lemma_digits_value_bound(s: Seq<char>)
    requires
        all_digits(s),
    ensures
        digits_value(s) < pow10(s.len()),
    decreases s.len(),
{
    if s.len() > 0 {
        let t = s.drop_last();
        assert forall|i: int| 0 <= i < t.len() implies is_digit(#[trigger] t[i]) by {
            assert(t[i] == s[i]);
        }
        lemma_digits_value_bound(t);
        assert(is_digit(s[s.len() - 1]));
        assert(digits_value(s) <= (pow10(t.len()) - 1) * 10 + 9);
        assert((pow10(t.len()) - 1) * 10 + 9 == 10 * pow10(t.len()) - 1) by (nonlinear_arith);
    }
}

/// Rounding away the last `k` digits of a run: the digits before them, one
/// more where the first of them is 5 or above.
pub proof fn lemma_round_digits(d: Seq<char>, k: nat)
    requires
        all_digits(d),
        1 <= k <= d.len(),
    ensures
        scaled_rounded(digits_value(d), -(k as int)) == digits_value(d.take(d.len() - k))
            + if digit_value(d[d.len() - k]) >= 5 { 1int } else { 0int },
{
    let j = d.len() - k;
    let hi = d.take(j);
    let lo = d.skip(j);
    assert(d =~= hi + lo);
    lemma_digits_value_concat(hi, lo);
    let rest = lo.drop_first();
    assert(lo =~= seq![lo[0]] + rest);
    lemma_digits_value_concat(seq![lo[0]], rest);
    assert(seq![lo[0]].drop_last() =~= Seq::<char>::empty());
    assert(digits_value(Seq::<char>::empty()) == 0);
    assert(seq![lo[0]].last() == lo[0]);
    assert(digits_value(seq![lo[0]]) == digits_value(seq![lo[0]].drop_last()) * 10 + digit_value(lo[0]));
    assert(digits_value(seq![lo[0]]) == digit_value(lo[0]));
    assert forall|i: int| 0 <= i < rest.len() implies is_digit(#[trigger] rest[i]) by {
        assert(rest[i] == d[j + 1 + i]);
    }
    lemma_digits_value_bound(rest);
    assert(is_digit(d[j]));
    assert(lo[0] == d[j]);
    let q = pow10(rest.len());
    let p = pow10(k);
    assert(p == 10 * q) by {
        assert(rest.len() == k - 1);
    }
    let c = digit_value(d[j]);
    let big_p = digits_value(hi);
    let r = digits_value(lo);
    assert(r == c * q + digits_value(rest));
    assert(digits_value(d) == big_p * p + r);
    assert(p / 2 == 5 * q);
    lemma_pow10_positive(rest.len());
    let t = r + 5 * q;
    let bit: int = if c >= 5 { 1 } else { 0 };
    assert(t - bit * p >= 0 && t - bit * p < p) by (nonlinear_arith)
        requires
            t == c * q + digits_value(rest) + 5 * q,
            0 <= c <= 9,
            0 <= digits_value(rest) < q,
            p == 10 * q,
            bit == if c >= 5 { 1int } else { 0int },
    ;
    assert(digits_value(d) + p / 2 == (big_p + bit) * p + (t - bit * p)) by (nonlinear_arith)
        requires
            digits_value(d) == big_p * p + r,
            t == r + 5 * q,
            p / 2 == 5 * q,
    ;
    vstd::arithmetic::div_mod::lemma_fundamental_div_mod_converse(
        (digits_value(d) + p / 2) as int, p as int, big_p + bit, t - bit * p);
}

/// Rounding away more digits than a run has leaves zero.
pub proof fn lemma_round_all_digits(d: Seq<char>, k: nat)
    requires
        all_digits(d),
        k > d.len(),
    ensures
        scaled_rounded(digits_value(d), -(k as int)) == 0,
{
    lemma_digits_value_bound(d);
    let m = (k - d.len() - 1) as nat;
    lemma_pow10_add(d.len(), m);
    lemma_pow10_positive(m);
    assert(k == d.len() + m + 1);
    assert(pow10(k) == 10 * pow10(d.len() + m));
    let p = pow10(k);
    assert(pow10(d.len()) <= pow10(d.len()) * pow10(m)) by (nonlinear_arith)
        requires pow10(m) >= 1;
    assert(digits_value(d) + p / 2 < p);
    vstd::arithmetic::div_mod::lemma_fundamental_div_mod_converse(
        (digits_value(d) + p / 2) as int, p as int, 0, (digits_value(d) + p / 2) as int);
}

/// A non-zero value scaled up by `10^19` or more is past `2^63`.
pub proof fn lemma_scaled_large(n: nat, e: int)
    requires
        n >= 1,
        e >= 19,
    ensures
        scaled_rounded(n, e) > 0x8000_0000_0000_0000,
{
    let m = (e - 19) as nat;
    lemma_pow10_add(19, m);
    lemma_pow10_positive(m);
    reveal_with_fuel(pow10, 20);
    assert(pow10(19) == 10_000_000_000_000_000_000);
    assert(n * (pow10(19) * pow10(m)) >= pow10(19)) by (nonlinear_arith)
        requires n >= 1, pow10(m) >= 1, pow10(19) >= 1;
    assert(e as nat == 19 + m);
}

/// Whether `v[from..to]` are all ASCII digits.
fn digits_only(v: &Vec<char>, from: usize, to: usize) -> (r: bool)
    requires
        from <= to <= v.len(),
    ensures
        r == all_digits(v@.subrange(from as int, to as int)),
{
    let mut i = from;
    while i < to
        invariant
            from <= i <= to <= v.len(),
            forall|k: int| from <= k < i ==> is_digit(#[trigger] v@[k]),
        decreases to - i,
    {
        if !('0' <= v[i] && v[i] <= '9') {
            assert(v@.subrange(from as int, to as int)[i - from] == v@[i as int]);
            return false;
        }
        i = i + 1;
    }
    assert forall|k: int| 0 <= k < to - from implies is_digit(#[trigger] v@.subrange(from as int, to as int)[k]) by {
        assert(v@.subrange(from as int, to as int)[k] == v@[k + from]);
    }
    true
}

pub proof fn lemma_pow10_le(i: nat, j: nat)
    requires
        i <= j,
    ensures
        pow10(i) <= pow10(j),
{
    let m = (j - i) as nat;
    lemma_pow10_add(i, m);
    lemma_pow10_positive(m);
    assert(i + m == j);
    assert(pow10(i) <= pow10(i) * pow10(m)) by (nonlinear_arith)
        requires pow10(m) >= 1;
}

/// `10^e`, for `e` up to 18.
fn pow10_of(e: u32) -> (p: u128)
    requires
        e <= 18,
    ensures
        p as int == pow10(e as nat),
        p <= 1_000_000_000_000_000_000,
{
    proof {
        reveal_with_fuel(pow10, 19);
        assert(pow10(18) == 1_000_000_000_000_000_000);
    }
    let mut p: u128 = 1;
    let mut i: u32 = 0;
    while i < e
        invariant
            i <= e <= 18,
            p as int == pow10(i as nat),
            pow10(18) == 1_000_000_000_000_000_000,
        decreases e - i,
    {
        proof {
            lemma_pow10_le((i + 1) as nat, 18);
            assert(pow10((i + 1) as nat) == 10 * pow10(i as nat));
        }
        p = p * 10;
        i = i + 1;
    }
    proof {
        lemma_pow10_le(e as nat, 18);
    }
    p
}

/// The index of the first `e` or `E` in `v[from..]`, as an index of `v`, or `v.len()`.
fn find_exp_mark(v: &Vec<char>, from: usize) -> (r: usize)
    requires
        from <= v.len(),
    ensures
        r == from + exp_pos(v@.skip(from as int)),
        from <= r <= v.len(),
{
    let mut i = from;
    while i < v.len() && v[i] != 'e' && v[i] != 'E'
        invariant
            from <= i <= v.len(),
            forall|k: int| from <= k < i ==> !is_exp_mark(#[trigger] v@[k]),
        decreases v.len() - i,
    {
        i = i + 1;
    }
    proof {
        let t = v@.skip(from as int);
        assert forall|k: int| 0 <= k < i - from implies !is_exp_mark(#[trigger] t[k]) by {
            assert(t[k] == v@[k + from]);
        }
        lemma_exp_pos_unique(t, i - from);
    }
    i
}

proof fn lemma_exp_pos_unique(s: Seq<char>, i: int)
    requires
        0 <= i <= s.len(),
        i < s.len() ==> is_exp_mark(s[i]),
        forall|k: int| 0 <= k < i ==> !is_exp_mark(#[trigger] s[k]),
    ensures
        exp_pos(s) == i,
    decreases s.len(),
{
    if s.len() > 0 && !is_exp_mark(s[0]) {
        let t = s.drop_first();
        assert forall|k: int| 0 <= k < i - 1 implies !is_exp_mark(#[trigger] t[k]) by {
            assert(t[k] == s[k + 1]);
        }
        lemma_exp_pos_unique(t, i - 1);
    }
}

/// The value of the digits `v[from..to]`, capped at `cap`; `None` unless
/// they are one or more ASCII digits.
fn read_digits_capped(v: &Vec<char>, from: usize, to: usize, cap: u128) -> (r: Option<u128>)
    requires
        from <= to <= v.len(),
        cap <= 0x1_0000_0000_0000_0000_0000,
    ensures
        r is Some <==> unsigned_value(v@.subrange(from as int, to as int)) is Some,
        r matches Some(x) ==> (x as int == if digits_value(v@.subrange(from as int, to as int)) < cap {
            digits_value(v@.subrange(from as int, to as int)) as int
        } else {
            cap as int
        }),
{
    if from == to {
        return None;
    }
    let mut acc: u128 = 0;
    let mut i = from;
    while i < to
        invariant
            from <= i <= to <= v.len(),
            cap <= 0x1_0000_0000_0000_0000_0000,
            all_digits(v@.subrange(from as int, i as int)),
            acc <= cap,
            acc as int == if digits_value(v@.subrange(from as int, i as int)) < cap {
                digits_value(v@.subrange(from as int, i as int)) as int
            } else {
                cap as int
            },
        decreases to - i,
    {
        let c = v[i];
        if !('0' <= c && c <= '9') {
            proof {
                assert(v@.subrange(from as int, to as int)[i - from] == c);
            }
            return None;
        }
        let d = (c as u32 - '0' as u32) as u128;
        proof {
            lemma_digits_value_push(v@.subrange(from as int, i as int), c);
            assert(v@.subrange(from as int, i + 1) =~= v@.subrange(from as int, i as int).push(c));
        }
        if acc >= cap {
            acc = cap;
        } else {
            let next = acc * 10 + d;
            acc = if next >= cap { cap } else { next };
        }
        i = i + 1;
        proof {
            assert forall|k: int| 0 <= k < v@.subrange(from as int, i as int).len() implies is_digit(
                #[trigger] v@.subrange(from as int, i as int)[k],
            ) by {
                if k < i - 1 - from {
                    assert(v@.subrange(from as int, i as int)[k] == v@.subrange(from as int, i - 1)[k]);
                }
            }
        }
    }
    Some(acc)
}

/// Appends `v[from..to]`.
fn push_chars(out: &mut Vec<char>, v: &Vec<char>, from: usize, to: usize)
    requires
        from <= to <= v.len(),
    ensures
        final(out)@ == old(out)@ + v@.subrange(from as int, to as int),
{
    let mut i = from;
    while i < to
        invariant
            from <= i <= to <= v.len(),
            out@ == old(out)@ + v@.subrange(from as int, i as int),
        decreases to - i,
    {
        out.push(v[i]);
        assert(v@.subrange(from as int, i + 1) =~= v@.subrange(from as int, i as int).push(v@[i as int]));
        i = i + 1;
    }
}

/// The value of the digits `d` times `10^e2`, rounded to a whole number
/// (halves away from zero), where it is at most `2^63`; `None` where it is
/// more.
fn scaled_magnitude(d: &Vec<char>, e2: i128) -> (r: Option<u128>)
    requires
        all_digits(d@),
        d.len() > 0,
        -0x1_0000_0000_0000_0000_0000 <= e2 <= 0x1_0000_0000_0000_0000_0000,
    ensures
        r matches Some(x) ==> x == scaled_rounded(digits_value(d@), e2 as int) && x <= 0x8000_0000_0000_0000,
        r is None ==> scaled_rounded(digits_value(d@), e2 as int) > 0x8000_0000_0000_0000,
{
    let len = d.len();
    let ghost dv = digits_value(d@);
    proof {
        assert(d@.subrange(0, len as int) =~= d@);
    }
    if e2 >= 0 {
        let nv = match read_digits(d, 0, len) {
            Some(x) => x,
            None => return None,
        };
        if nv == 0 {
            assert(dv == 0);
            proof {
                lemma_scaled_zero(e2 as int);
            }
            return Some(0);
        }
        if e2 >= 19 {
            proof {
                lemma_scaled_large(dv, e2 as int);
            }
            return None;
        }
        let p = pow10_of(e2 as u32);
        proof {
            lemma_pow10_positive(e2 as nat);
            assert((nv as int) * (p as int) <= 0x1_0000_0000_0000_0000 * 1_000_000_000_000_000_000) by (nonlinear_arith)
                requires nv <= 0x1_0000_0000_0000_0000, p <= 1_000_000_000_000_000_000;
        }
        let x: u128 = nv * p;
        if x > 0x8000_0000_0000_0000 {
            proof {
                assert(dv * pow10(e2 as nat) >= (nv as int) * (p as int)) by (nonlinear_arith)
                    requires dv >= nv, p as int == pow10(e2 as nat);
            }
            None
        } else {
            proof {
                if dv >= 0x1_0000_0000_0000_0000 {
                    assert((nv as int) * (p as int) >= 0x1_0000_0000_0000_0000) by (nonlinear_arith)
                        requires nv == 0x1_0000_0000_0000_0000, p >= 1;
                }
            }
            Some(x)
        }
    } else {
        let k: u128 = (0 - e2) as u128;
        if k > len as u128 {
            proof {
                lemma_round_all_digits(d@, k as nat);
            }
            return Some(0);
        }
        let j: usize = len - k as usize;
        proof {
            lemma_round_digits(d@, k as nat);
            assert(d@.subrange(0, j as int) =~= d@.take(j as int));
        }
        let hi: u128 = if j == 0 {
            assert(d@.take(0) =~= Seq::<char>::empty());
            0
        } else {
            proof {
                assert forall|i: int| 0 <= i < j implies is_digit(#[trigger] d@.take(j as int)[i]) by {
                    assert(d@.take(j as int)[i] == d@[i]);
                }
            }
            match read_digits(d, 0, j) {
                Some(x) => x,
                None => return None,
            }
        };
        proof {
            assert(is_digit(d@[j as int]));
        }
        let up: u128 = if d[j] >= '5' { 1 } else { 0 };
        let x: u128 = hi + up;
        if x > 0x8000_0000_0000_0000 {
            None
        } else {
            Some(x)
        }
    }
}

/// The exponent after an `e` or `E`: its sign and its magnitude, capped at
/// `bound` (see `exponent_value`).
fn exponent_of(v: &Vec<char>, from: usize, bound: u128) -> (r: Option<(bool, u128)>)
    requires
        from <= v.len(),
        bound <= 0x1_0000_0000_0000_0000_0000,
    ensures
        r is Some <==> signed_int_value(v@.skip(from as int)) is Some,
        r matches Some((neg, x)) ==> {
            let e = signed_int_value(v@.skip(from as int))->Some_0;
            &&& x <= bound
            &&& x < bound ==> e == if neg { -(x as int) } else { x as int }
            &&& x >= bound ==> if neg { e <= -(bound as int) } else { e >= bound }
        },
{
    let n = v.len();
    let ghost t = v@.skip(from as int);
    proof {
        if from < n {
            assert(v@.subrange(from + 1, n as int) =~= t.drop_first());
        }
        assert(v@.subrange(from as int, n as int) =~= t);
    }
    let neg = from < n && v[from] == '-';
    let dfrom: usize = if from < n && (v[from] == '-' || v[from] == '+') { from + 1 } else { from };
    match read_digits_capped(v, dfrom, n, bound) {
        None => None,
        Some(x) => Some((neg, x)),
    }
}

/// The hundredths of the digits `d` scaled by the exponent `ev` less the
/// `flen` fraction digits, rounded (see `scaled_rounded`), where they are at
/// most `2^63`; `exp_neg` and `exp_mag` give `ev` as `exponent_of` does.
fn rounded_magnitude(d: &Vec<char>, exp_neg: bool, exp_mag: u128, bound: u128, flen: usize, ev: Ghost<int>) -> (r: Option<u128>)
    requires
        all_digits(d@),
        d.len() > 0,
        flen <= d.len(),
        d.len() + 40 <= bound <= 0x1_0000_0000_0000_0028,
        exp_mag <= bound,
        exp_mag < bound ==> ev@ == if exp_neg { -(exp_mag as int) } else { exp_mag as int },
        exp_mag >= bound ==> if exp_neg { ev@ <= -(bound as int) } else { ev@ >= bound },
    ensures
        r matches Some(x) ==> x == scaled_rounded(digits_value(d@), ev@ + 2 - flen) && x <= 0x8000_0000_0000_0000,
        r is None ==> scaled_rounded(digits_value(d@), ev@ + 2 - flen) > 0x8000_0000_0000_0000,
{
    let ghost e2: int = ev@ + 2 - flen;
    if exp_mag >= bound {
        if exp_neg {
            proof {
                lemma_round_all_digits(d@, (-e2) as nat);
            }
            Some(0)
        } else {
            proof {
                assert(d@.subrange(0, d.len() as int) =~= d@);
            }
            match read_digits(d, 0, d.len()) {
                Some(x) => {
                    if x == 0 {
                        proof {
                            assert(digits_value(d@) == 0);
                            lemma_scaled_zero(e2);
                        }
                        Some(0)
                    } else {
                        proof {
                            lemma_scaled_large(digits_value(d@), e2);
                        }
                        None
                    }
                },
                None => None,
            }
        }
    } else {
        let e: i128 = if exp_neg { 0 - exp_mag as i128 } else { exp_mag as i128 };
        let e2x: i128 = e + 2 - flen as i128;
        assert(e2x as int == e2);
        assert(-0x1_0000_0000_0000_0000_0000 <= e2x <= 0x1_0000_0000_0000_0000_0000);
        scaled_magnitude(d, e2x)
    }
}

pub proof fn lemma_scaled_zero(e: int)
    ensures
        scaled_rounded(0, e) == 0,
{
    if e < 0 {
        let p = pow10((-e) as nat);
        lemma_pow10_positive((-e) as nat);
        if p >= 2 {
            assert(p / 2 < p);
            vstd::arithmetic::div_mod::lemma_fundamental_div_mod_converse((p / 2) as int, p as int, 0, (p / 2) as int);
        }
    }
}

/// Where the whole part of the mantissa `v[start..epos]` ends and where its
/// fraction starts (see `whole_part` and `frac_part`).
fn mantissa_parts(v: &Vec<char>, start: usize, epos: usize) -> (r: (usize, usize))
    requires
        start <= epos <= v.len(),
    ensures
        start <= r.0 <= r.1 <= epos,
        r.0 == start && r.1 == epos ==> whole_part(v@.subrange(start as int, epos as int)).len()
            + frac_part(v@.subrange(start as int, epos as int)).len() == 0,
        v@.subrange(start as int, r.0 as int) == whole_part(v@.subrange(start as int, epos as int)),
        v@.subrange(r.1 as int, epos as int) == frac_part(v@.subrange(start as int, epos as int)),
{
    let ghost m = v@.subrange(start as int, epos as int);
    let dot0 = crate::text::find_char(v, start, '.');
    let dot: usize = if dot0 < epos { dot0 } else { epos };
    proof {
        crate::text::lemma_char_pos(m, '.');
        crate::text::lemma_char_pos(v@.skip(start as int), '.');
        assert forall|k: int| 0 <= k < dot - start implies #[trigger] m[k] != '.' by {
            assert(m[k] == v@.skip(start as int)[k]);
        }
        if dot < epos {
            assert(m[dot - start] == v@.skip(start as int)[dot - start]);
        }
        crate::text::lemma_char_pos_unique(m, '.', dot - start);
    }
    let frac_from: usize = if dot < epos { dot + 1 } else { epos };
    proof {
        assert(v@.subrange(start as int, dot as int) =~= whole_part(m));
        assert(v@.subrange(frac_from as int, epos as int) =~= frac_part(m));
    }
    (dot, frac_from)
}

/// Reads a decimal number as hundredths (see `amount_value`), a value
/// beyond `i64` held as the nearest bound.
#[verifier::rlimit(60)]
pub fn parse_amount(s: &str) -> (r: Option<i64>)
    ensures
        r is Some <==> amount_value(s@) is Some,
        r matches Some(x) ==> x == saturated(amount_value(s@)->Some_0),
{
    let v = to_chars(s);
    let n = v.len();
    let neg = n > 0 && v[0] == '-';
    let start: usize = if n > 0 && (v[0] == '-' || v[0] == '+') { 1 } else { 0 };
    let ghost b = v@.subrange(start as int, n as int);
    proof {
        assert(b =~= unsigned_body(s@));
        assert(v@.skip(start as int) =~= b);
    }
    let epos = find_exp_mark(&v, start);
    let ghost m = v@.subrange(start as int, epos as int);
    proof {
        assert(m =~= mantissa(b));
        crate::text::lemma_char_pos(m, '.');
    }
    let bound: u128 = n as u128 + 40;
    proof {
        if epos < n {
            assert(v@.skip(epos as int + 1) =~= b.skip(epos - start + 1));
        }
    }
    let (exp_neg, exp_mag) = if epos < n {
        match exponent_of(&v, epos + 1, bound) {
            None => return None,
            Some(p) => p,
        }
    } else {
        (false, 0)
    };
    let ghost ev: int = exponent_value(b)->Some_0;
    let (dot, frac_from) = mantissa_parts(&v, start, epos);
    let ghost w = v@.subrange(start as int, dot as int);
    let ghost f = v@.subrange(frac_from as int, epos as int);
    if !digits_only(&v, start, dot) || !digits_only(&v, frac_from, epos) {
        return None;
    }
    if dot == start && frac_from == epos {
        return None;
    }
    let mut d: Vec<char> = Vec::new();
    push_chars(&mut d, &v, start, dot);
    push_chars(&mut d, &v, frac_from, epos);
    let flen: usize = epos - frac_from;
    proof {
        assert(d@ =~= w + f);
        assert forall|i: int| 0 <= i < d@.len() implies is_digit(#[trigger] d@[i]) by {
            if i < w.len() {
                assert(d@[i] == w[i]);
            } else {
                assert(d@[i] == f[i - w.len()]);
            }
        }
    }
    let ghost e2: int = ev + 2 - flen;
    let mag: u128 = match rounded_magnitude(&d, exp_neg, exp_mag, bound, flen, Ghost(ev)) {
        Some(x) => x,
        None => {
            return Some(if neg { i64::MIN } else { i64::MAX });
        },
    };
    assert(mag == scaled_rounded(digits_value(w + f), e2));
    let val: i128 = if neg { 0 - mag as i128 } else { mag as i128 };
    if val < i64::MIN as i128 {
        return Some(i64::MIN);
    }
    if val > i64::MAX as i128 {
        return Some(i64::MAX);
    }
    Some(val as i64)
}

// ---------------------------------------------------------------------
// Laws: what the library writes, it reads back

pub proof fn lemma_digit_char(d: int)
    requires
        0 <= d < 10,
    ensures
        is_digit(digit_char(d)),
        digit_value(digit_char(d)) == d,
        digit_char(d) != '-' && digit_char(d) != '+' && digit_char(d) != '.',
{
    assert(('0' as int + d) as char as int == '0' as int + d);
}

pub proof fn lemma_digits_of(n: nat)
    ensures
        digits_of(n).len() > 0,
        all_digits(digits_of(n)),
        digits_value(digits_of(n)) == n,
    decreases n,
{
    if n < 10 {
        lemma_digit_char(n as int);
        let c = digit_char(n as int);
        assert(digits_of(n) =~= Seq::<char>::empty().push(c));
        lemma_digits_value_push(Seq::<char>::empty(), c);
        assert(digits_value(Seq::<char>::empty()) == 0);
    } else {
        lemma_digits_of(n / 10);
        lemma_digit_char((n % 10) as int);
        let s = digits_of(n / 10);
        let c = digit_char((n % 10) as int);
        assert(digits_of(n) =~= s.push(c));
        lemma_digits_value_push(s, c);
        assert forall|i: int| 0 <= i < s.push(c).len() implies is_digit(#[trigger] s.push(c)[i]) by {
            if i < s.len() {
                assert(s.push(c)[i] == s[i]);
            }
        }
    }
}

/// The decimal text of an integer reads back as that integer.
pub proof fn law_int_text_reads_back(n: int)
    requires
        i64::MIN <= n <= i64::MAX,
    ensures
        in_range(signed_int_value(int_text(n)), i64::MIN as int, i64::MAX as int) == Some(n),
{
    if n < 0 {
        let d = digits_of((-n) as nat);
        lemma_digits_of((-n) as nat);
        assert((seq!['-'] + d).drop_first() =~= d);
    } else {
        lemma_digits_of(n as nat);
        let d = digits_of(n as nat);
        assert(is_digit(d[0]));
    }
}

/// A run of digits holds no `.`.
pub proof fn lemma_no_dot(s: Seq<char>)
    requires
        all_digits(s),
    ensures
        crate::text::char_pos(s, '.') == s.len(),
{
    assert forall|k: int| 0 <= k < s.len() implies #[trigger] s[k] != '.' by {
        assert(is_digit(s[k]));
    }
    crate::text::lemma_char_pos_unique(s, '.', s.len() as int);
}

/// Where a run of digits `w` is followed by `.` and the digits `f`, the
/// whole part is `w` and the fraction `f`; without the `.`, there is no
/// fraction.
pub proof fn lemma_whole_and_fraction(w: Seq<char>, f: Seq<char>, dot: bool)
    requires
        all_digits(w),
        !dot ==> f.len() == 0,
    ensures
        whole_part(if dot { w + seq!['.'] + f } else { w }) == w,
        frac_part(if dot { w + seq!['.'] + f } else { w }) == f,
{
    lemma_no_dot(w);
    if dot {
        let body = w + seq!['.'] + f;
        assert forall|k: int| 0 <= k < w.len() implies #[trigger] body[k] != '.' by {
            assert(body[k] == w[k]);
            assert(is_digit(w[k]));
        }
        assert(body[w.len() as int] == '.');
        crate::text::lemma_char_pos_unique(body, '.', w.len() as int);
        assert(body.take(w.len() as int) =~= w);
        assert(body.skip(w.len() as int + 1) =~= f);
    } else {
        assert(w.take(w.len() as int) =~= w);
    }
}

/// The digits of one or two places of a fraction give its hundredths.
pub proof fn lemma_fraction_digits(m: int)
    requires
        m >= 0,
        m % 100 != 0,
    ensures
        ({
            let f = if m % 10 == 0 {
                seq![digit_char((m / 10) % 10)]
            } else {
                seq![digit_char((m / 10) % 10), digit_char(m % 10)]
            };
            &&& all_digits(f)
            &&& f.len() <= 2
            &&& digits_value(f) * pow10((2 - f.len()) as nat) == m % 100
        }),
{
    lemma_digit_char((m / 10) % 10);
    lemma_digit_char(m % 10);
    let a = digit_char((m / 10) % 10);
    let c = digit_char(m % 10);
    let f = if m % 10 == 0 { seq![a] } else { seq![a, c] };
    assert forall|i: int| 0 <= i < f.len() implies is_digit(#[trigger] f[i]) by {}
    lemma_digits_value_push(Seq::<char>::empty(), a);
    assert(Seq::<char>::empty().push(a) =~= seq![a]);
    assert(digits_value(Seq::<char>::empty()) == 0);
    assert(digits_value(seq![a]) == (m / 10) % 10);
    reveal_with_fuel(pow10, 3);
    if m % 10 != 0 {
        lemma_digits_value_push(seq![a], c);
        assert(seq![a].push(c) =~= seq![a, c]);
        assert(digits_value(f) == ((m / 10) % 10) * 10 + m % 10);
        assert(pow10(0) == 1);
        assert(m % 100 == ((m / 10) % 10) * 10 + m % 10) by (nonlinear_arith)
            requires m >= 0;
        assert(f.len() == 2);
        assert(digits_value(f) * pow10(0) == digits_value(f));
    } else {
        assert(pow10(1) == 10);
        assert(m % 100 == ((m / 10) % 10) * 10 + m % 10) by (nonlinear_arith)
            requires m >= 0;
        assert(f.len() == 1);
    }
}

/// Text made of digits and `.` has no exponent: it is all mantissa.
pub proof fn lemma_no_exponent(b: Seq<char>)
    requires
        forall|i: int| 0 <= i < b.len() ==> is_digit(#[trigger] b[i]) || b[i] == '.',
    ensures
        exp_pos(b) == b.len(),
        mantissa(b) == b,
        exponent_value(b) == Some(0int),
{
    assert forall|k: int| 0 <= k < b.len() implies !is_exp_mark(#[trigger] b[k]) by {
        assert(is_digit(b[k]) || b[k] == '.');
    }
    lemma_exp_pos_unique(b, b.len() as int);
    assert(b.take(b.len() as int) =~= b);
}

/// The text an amount is shown with (as `{}` shows a number) reads back as
/// that amount: what `/alert` confirms is what it stored.
pub proof fn law_plain_text_reads_back(v: int)
    requires
        i64::MIN <= v <= i64::MAX,
    ensures
        amount_value(plain_text(v)) == Some(v),
{
    let m = abs(v);
    let w = digits_of((m / 100) as nat);
    lemma_digits_of((m / 100) as nat);
    let dot = m % 100 != 0;
    let f: Seq<char> = if m % 100 == 0 {
        seq![]
    } else if m % 10 == 0 {
        seq![digit_char((m / 10) % 10)]
    } else {
        seq![digit_char((m / 10) % 10), digit_char(m % 10)]
    };
    if dot {
        lemma_fraction_digits(m);
    } else {
        assert(digits_value(f) == 0);
    }
    assert(all_digits(f) && f.len() <= 2 && digits_value(f) * pow10((2 - f.len()) as nat) == m % 100);
    let body: Seq<char> = if dot { w + seq!['.'] + f } else { w };
    lemma_whole_and_fraction(w, f, dot);
    let s = plain_text(v);
    assert(s =~= sign_text(v) + body);
    assert(is_digit(w[0]));
    assert(body[0] == w[0]);
    assert(unsigned_body(s) =~= body);
    assert forall|i: int| 0 <= i < body.len() implies is_digit(#[trigger] body[i]) || body[i] == '.' by {
        if i < w.len() {
            assert(body[i] == w[i]);
        } else if dot && i > w.len() {
            assert(body[i] == f[i - w.len() - 1]);
        }
    }
    lemma_no_exponent(body);
    lemma_digits_value_concat(w, f);
    let k = (2 - f.len()) as nat;
    lemma_pow10_add(f.len(), k);
    reveal_with_fuel(pow10, 3);
    assert(f.len() + k == 2);
    assert(pow10(0) == 1);
    assert(pow10(1) == 10 * pow10(0));
    assert(pow10(2) == 10 * pow10(1));
    assert(pow10(2) == 100);
    let x = digits_value(w);
    assert((x * pow10(f.len()) + digits_value(f)) * pow10(k) == x * (pow10(f.len()) * pow10(k)) + digits_value(f) * pow10(k)) by (nonlinear_arith);
    assert(scaled_rounded(digits_value(w + f), 2 - f.len()) == x * 100 + m % 100);
}


/// Rounding a scaled value: for a negative exponent the result times
/// `10^-e` is within half of `10^-e` of `n`, a half rounding up.
pub proof fn law_scaled_rounded_nearest(n: nat, k: nat)
    requires
        k >= 1,
    ensures
        ({
            let p = pow10(k) as int;
            let r = scaled_rounded(n, -(k as int)) as int;
            -p < 2 * (r * p) - 2 * (n as int) <= p
        }),
{
    lemma_pow10_positive(k);
    let p = pow10(k) as int;
    assert(pow10(k) == 10 * pow10((k - 1) as nat));
    assert(p % 2 == 0);
    let x = n + p / 2;
    let r = x / p;
    vstd::arithmetic::div_mod::lemma_fundamental_div_mod(x, p);
    vstd::arithmetic::div_mod::lemma_mod_bound(x, p);
    assert(r * p <= x < r * p + p) by (nonlinear_arith)
        requires x == p * r + x % p, 0 <= x % p < p;
    assert(scaled_rounded(n, -(k as int)) == r);
}

/// What a threshold is written as reads back as that threshold: an amount
/// as `{}` writes it, and `inf`, `-inf` and `NaN`.
pub proof fn law_threshold_text_reads_back(t: Threshold)
    ensures
        threshold_value(threshold_plain_text(t)) == Some(t),
{
    reveal_strlit("inf");
    reveal_strlit("-inf");
    reveal_strlit("NaN");
    reveal_strlit("nan");
    reveal_strlit("infinity");
    match t {
        Threshold::Amount(v) => {
            law_plain_text_reads_back(v as int);
            let s = plain_text(v as int);
            let b = unsigned_body(s);
            let m = abs(v as int);
            lemma_digits_of((m / 100) as nat);
            let w = digits_of((m / 100) as nat);
            assert(is_digit(w[0]));
            assert(s =~= sign_text(v as int) + w + s.skip((sign_text(v as int).len() + w.len()) as int));
            assert(b[0] == w[0]);
            assert(!same_letter_any_case(b[0], 'i'));
            assert(!same_letter_any_case(b[0], 'n'));
            assert(!is_word_any_case(b, "inf"@));
            assert(!is_word_any_case(b, "infinity"@));
            assert(!is_word_any_case(b, "nan"@));
        },
        Threshold::PlusInfinity => {
            let s = "inf"@;
            assert(unsigned_body(s) == s);
            assert(is_word_any_case(s, "inf"@));
        },
        Threshold::MinusInfinity => {
            let s = "-inf"@;
            assert(unsigned_body(s) =~= "inf"@);
            assert(is_word_any_case(unsigned_body(s), "inf"@));
        },
        Threshold::NotANumber => {
            let s = "NaN"@;
            assert(unsigned_body(s) == s);
            assert(!is_word_any_case(s, "inf"@));
            assert(!is_word_any_case(s, "infinity"@));
            assert(same_letter_any_case(s[0], 'n'));
            assert(same_letter_any_case(s[2], 'n'));
            assert(is_word_any_case(s, "nan"@));
        },
    }
}

} // verus!
