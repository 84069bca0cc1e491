//! Exact decimal amounts.
//!
//! Prices, share counts and money amounts are held as whole numbers of
//! millionths (`i64`), so that every computation on them is exact integer
//! arithmetic with explicit rounding toward zero. This module reads such
//! amounts from text, writes whole numbers back as text, and multiplies an
//! amount by a ratio.

use crate::text::{chars_of, index_of, lemma_index_of_first};
use vstd::prelude::*;

verus! {

/// Millionths per unit: `1.5` is held as `1_500_000`.
pub const MICROS_PER_UNIT: i64 = 1_000_000;

/// Whether `c` is a decimal digit.
pub open spec fn is_digit(c: char) -> bool {
    '0' <= c && c <= '9'
}

/// The number that the decimal digit `c` denotes.
pub open spec fn digit_value(c: char) -> int {
    c as int - 48
}

/// Whether `s` holds decimal digits only.
pub open spec fn all_digits(s: Seq<char>) -> bool {
    forall|i: int| 0 <= i < s.len() ==> is_digit(#[trigger] s[i])
}

/// The number that the decimal digits `s` denote.
pub open spec fn digits_value(s: Seq<char>) -> int
    decreases s.len(),
{
    if s.len() == 0 {
        0
    } else {
        digits_value(s.drop_last()) * 10 + digit_value(s.last())
    }
}

/// Whether `s` opens with a sign character.
pub open spec fn has_sign(s: Seq<char>) -> bool {
    s.len() > 0 && (s[0] == '-' || s[0] == '+')
}

/// `s` without its sign character.
pub open spec fn unsigned_part(s: Seq<char>) -> Seq<char> {
    if has_sign(s) {
        s.skip(1)
    } else {
        s
    }
}

/// `magnitude`, negated when `s` opens with a minus sign.
pub open spec fn with_sign_of(s: Seq<char>, magnitude: int) -> int {
    if s.len() > 0 && s[0] == '-' {
        -magnitude
    } else {
        magnitude
    }
}

/// The whole number that `s` denotes: an optional sign, then one or more
/// decimal digits and nothing else.
pub open spec fn integer_value(s: Seq<char>) -> Option<int> {
    let body = unsigned_part(s);
    if body.len() > 0 && all_digits(body) {
        Some(with_sign_of(s, digits_value(body)))
    } else {
        None
    }
}

/// The first six characters of `frac`, filled up with zeros.
pub open spec fn six_places(frac: Seq<char>) -> Seq<char> {
    Seq::new(6, |i: int| if i < frac.len() { frac[i] } else { '0' })
}

/// The amount, in millionths, that the decimal number `s` denotes: an optional
/// sign, digits, optionally a point and more digits, with at least one digit
/// in all. Digits beyond the sixth decimal place are dropped.
pub open spec fn decimal_value(s: Seq<char>) -> Option<int> {
    let body = unsigned_part(s);
    let dot = index_of(body, '.');
    let whole = body.take(dot);
    let frac = if dot < body.len() { body.skip(dot + 1) } else { Seq::<char>::empty() };
    if all_digits(whole) && all_digits(frac) && whole.len() + frac.len() > 0 {
        Some(with_sign_of(s, digits_value(whole) * 1_000_000 + digits_value(six_places(frac))))
    } else {
        None
    }
}

/// Whether `c` may be part of a decimal number.
pub open spec fn is_numeric_char(c: char) -> bool {
    is_digit(c) || c == '.' || c == '-' || c == '+'
}

/// The characters of `s` that may be part of a decimal number.
pub open spec fn numeric_chars(s: Seq<char>) -> Seq<char> {
    s.filter(|c: char| is_numeric_char(c))
}

/// `v` as an `i64`, when it is one.
pub open spec fn as_i64(v: Option<int>) -> Option<i64> {
    match v {
        Some(x) => if i64::MIN <= x <= i64::MAX { Some(x as i64) } else { None },
        None => None,
    }
}

/// `v` as an `i32`, when it is one.
pub open spec fn as_i32(v: Option<int>) -> Option<i32> {
    match v {
        Some(x) => if i32::MIN <= x <= i32::MAX { Some(x as i32) } else { None },
        None => None,
    }
}

/// `n / d` rounded toward zero, for a positive `d`.
pub open spec fn div_toward_zero(n: int, d: int) -> int {
    if n >= 0 {
        n / d
    } else {
        -((-n) / d)
    }
}

/// `value` multiplied by the ratio `num / den`, rounded toward zero.
pub open spec fn scaled(value: int, num: int, den: int) -> int {
    div_toward_zero(value * num, den)
}

/// The decimal digits of `n`, without leading zeros (`"0"` for zero).
pub open spec fn digits_of(n: nat) -> Seq<char>
    decreases n,
{
    if n < 10 {
        seq![(48 + n) as u8 as char]
    } else {
        digits_of(n / 10).push((48 + n % 10) as u8 as char)
    }
}

/// A digit string denotes no negative number.
pub proof fn lemma_digits_value_nonneg(s: Seq<char>)
    requires
        all_digits(s),
    ensures
        digits_value(s) >= 0,
    decreases s.len(),
{
    if s.len() > 0 {
        lemma_digits_value_nonneg(s.drop_last());
    }
}

/// A prefix of a digit string never denotes more than the whole string.
pub proof fn lemma_digits_value_prefix(s: Seq<char>, k: int)
    requires
        all_digits(s),
        0 <= k <= s.len(),
    ensures
        0 <= digits_value(s.take(k)) <= digits_value(s),
    decreases s.len() - k,
{
    if k == s.len() {
        assert(s.take(k) == s);
        lemma_digits_value_nonneg(s);
    } else {
        lemma_digits_value_prefix(s, k + 1);
        assert(s.take(k + 1).drop_last() == s.take(k));
    }
}

/// Reads the digits `v[from..to]`, giving up once the number exceeds `limit`.
pub(crate) fn digits_to_u64(v: &Vec<char>, from: usize, to: usize, limit: u64) -> (r: Option<u64>)
    requires
        from <= to <= v.len(),
    ensures
        r == (if all_digits(v@.subrange(from as int, to as int)) && digits_value(
            v@.subrange(from as int, to as int),
        ) <= limit {
            Some(digits_value(v@.subrange(from as int, to as int)) as u64)
        } else {
            None::<u64>
        }),
{
    let ghost sub = v@.subrange(from as int, to as int);
    let mut acc: u64 = 0;
    let mut i: usize = from;
    while i < to
        invariant
            from <= i <= to <= v.len(),
            sub == v@.subrange(from as int, to as int),
            all_digits(sub.take(i - from)),
            acc == digits_value(sub.take(i - from)),
            acc <= limit,
        decreases to - i,
    {
        let c = v[i];
        assert(sub[i - from] == c);
        if !('0' <= c && c <= '9') {
            return None;
        }
        let d: u128 = (c as u32 - 48) as u128;
        let next: u128 = acc as u128 * 10 + d;
        proof {
            assert(sub.take(i - from + 1).drop_last() == sub.take(i - from));
        }
        if next > limit as u128 {
            proof {
                if all_digits(sub) {
                    lemma_digits_value_prefix(sub, i - from + 1);
                }
            }
            return None;
        }
        acc = next as u64;
        i += 1;
    }
    assert(sub.take(to - from) == sub);
    Some(acc)
}

/// Reads a whole number: an optional sign and decimal digits.
pub fn parse_i32(text: &str) -> (r: Option<i32>)
    ensures
        r == as_i32(integer_value(text@)),
{
    let v = chars_of(text);
    let n = v.len();
    if n == 0 {
        return None;
    }
    let negative = v[0] == '-';
    let start: usize = if v[0] == '-' || v[0] == '+' { 1 } else { 0 };
    let ghost body = unsigned_part(v@);
    assert(body == v@.subrange(start as int, n as int));
    if start == n {
        return None;
    }
    let limit: u64 = if negative { 2147483648 } else { 2147483647 };
    proof {
        if all_digits(body) {
            lemma_digits_value_nonneg(body);
        }
    }
    match digits_to_u64(&v, start, n, limit) {
        None => None,
        Some(m) => {
            if negative {
                Some((-(m as i64)) as i32)
            } else {
                Some(m as i32)
            }
        },
    }
}

/// Ten to the power `k`.
pub open spec fn pow10(k: nat) -> nat
    decreases k,
{
    if k == 0 {
        1
    } else {
        10 * pow10((k - 1) as nat)
    }
}

/// Whether `v[from..to]` holds decimal digits only.
pub(crate) fn all_digits_in(v: &Vec<char>, from: usize, to: usize) -> (r: bool)
    requires
        from <= to <= v.len(),
    ensures
        r == all_digits(v@.subrange(from as int, to as int)),
{
    let ghost sub = v@.subrange(from as int, to as int);
    let mut i: usize = from;
    while i < to
        invariant
            from <= i <= to <= v.len(),
            sub == v@.subrange(from as int, to as int),
            forall|j: int| 0 <= j < i - from ==> is_digit(#[trigger] sub[j]),
        decreases to - i,
    {
        let c = v[i];
        if !('0' <= c && c <= '9') {
            assert(!is_digit(sub[i - from]));
            return false;
        }
        i += 1;
    }
    true
}

/// The first six decimal places held in the digits `v[from..to]`, as a number
/// of millionths.
pub(crate) fn six_places_value(v: &Vec<char>, from: usize, to: usize) -> (r: u64)
    requires
        from <= to <= v.len(),
        all_digits(v@.subrange(from as int, to as int)),
    ensures
        r == digits_value(six_places(v@.subrange(from as int, to as int))),
        r < 1_000_000,
{
    let ghost frac = v@.subrange(from as int, to as int);
    let ghost six = six_places(frac);
    let mut acc: u64 = 0;
    let mut k: usize = 0;
    proof {
        reveal_with_fuel(pow10, 8);
    }
    while k < 6
        invariant
            k <= 6,
            from <= to <= v.len(),
            frac == v@.subrange(from as int, to as int),
            six == six_places(frac),
            all_digits(frac),
            all_digits(six),
            acc == digits_value(six.take(k as int)),
            acc < pow10(k as nat),
            pow10(6) == 1_000_000,
        decreases 6 - k,
    {
        let d: u64 = if k < to - from {
            let c = v[from + k];
            assert(c == frac[k as int]);
            (c as u32 - 48) as u64
        } else {
            0
        };
        proof {
            assert(six.take(k + 1).drop_last() == six.take(k as int));
            lemma_pow10_monotone((k + 1) as nat, 6);
        }
        acc = acc * 10 + d;
        k += 1;
    }
    assert(six.take(6) == six);
    acc
}

/// Powers of ten grow with the exponent.
pub proof fn lemma_pow10_monotone(a: nat, b: nat)
    requires
        a <= b,
    ensures
        pow10(a) <= pow10(b),
    decreases b,
{
    if a < b {
        lemma_pow10_monotone(a, (b - 1) as nat);
    }
}

/// Reads the decimal number held in the characters `v`.
pub fn parse_decimal_chars(v: &Vec<char>) -> (r: Option<i64>)
    ensures
        r == as_i64(decimal_value(v@)),
{
    let n = v.len();
    let negative = n > 0 && v[0] == '-';
    let start: usize = if n > 0 && (v[0] == '-' || v[0] == '+') { 1 } else { 0 };
    let ghost body = unsigned_part(v@);
    let mut dot: usize = start;
    while dot < n && v[dot] != '.'
        invariant
            start <= dot <= n == v.len(),
            forall|j: int| start <= j < dot ==> v@[j] != '.',
        decreases n - dot,
    {
        dot += 1;
    }
    let frac_from: usize = if dot < n { dot + 1 } else { n };
    let ghost whole = body.take(index_of(body, '.'));
    let ghost frac = if index_of(body, '.') < body.len() {
        body.skip(index_of(body, '.') + 1)
    } else {
        Seq::<char>::empty()
    };
    proof {
        lemma_index_of_first(body, '.', dot - start);
        assert(whole == v@.subrange(start as int, dot as int));
        assert(frac == v@.subrange(frac_from as int, n as int));
    }
    if (dot - start) + (n - frac_from) == 0 {
        return None;
    }
    if !all_digits_in(v, frac_from, n) {
        return None;
    }
    let micros = six_places_value(v, frac_from, n);
    proof {
        if all_digits(whole) {
            lemma_digits_value_nonneg(whole);
        }
    }
    match digits_to_u64(v, start, dot, 9223372036854) {
        None => None,
        Some(units) => {
            let m: u64 = units * 1_000_000 + micros;
            let limit: u64 = if negative { 9223372036854775808 } else { 9223372036854775807 };
            if m > limit {
                None
            } else if negative {
                Some((-(m as i128)) as i64)
            } else {
                Some(m as i64)
            }
        },
    }
}

/// Reads a decimal amount: an optional sign, digits, optionally a point and
/// more digits. The result is in millionths; `None` when `text` is no such
/// number or the amount does not fit.
pub fn parse_decimal(text: &str) -> (r: Option<i64>)
    ensures
        r == as_i64(decimal_value(text@)),
{
    let v = chars_of(text);
    parse_decimal_chars(&v)
}

/// Reads a decimal amount from the digits, points and signs of `text`, passing
/// over every other character.
pub fn parse_amount_str(text: &str) -> (r: Option<i64>)
    ensures
        r == as_i64(decimal_value(numeric_chars(text@))),
{
    let v = chars_of(text);
    let mut kept: Vec<char> = Vec::new();
    let mut i: usize = 0;
    let ghost pred = |c: char| is_numeric_char(c);
    while i < v.len()
        invariant
            i <= v.len(),
            pred == (|c: char| is_numeric_char(c)),
            kept@ == v@.take(i as int).filter(pred),
        decreases v.len() - i,
    {
        let c = v[i];
        proof {
            reveal(Seq::filter);
            assert(v@.take(i + 1).drop_last() == v@.take(i as int));
        }
        if ('0' <= c && c <= '9') || c == '.' || c == '-' || c == '+' {
            kept.push(c);
        }
        i += 1;
    }
    assert(v@.take(v.len() as int) == v@);
    parse_decimal_chars(&kept)
}

/// An optional field read as a decimal amount: `None` when the field is
/// absent, blank, or no number.
pub fn parse_price_field(field: Option<&str>) -> (r: Option<i64>)
    ensures
        r == match field {
            Some(text) => as_i64(decimal_value(crate::text::trimmed(text@))),
            None => None,
        },
{
    match field {
        None => None,
        Some(text) => {
            let t = crate::text::trim(text);
            parse_decimal(t.as_str())
        },
    }
}

/// Multiplies `a` by `b` and divides by `den`, rounding toward zero, in exact
/// arithmetic. `None` when `den` is not positive or the result does not fit.
pub fn mul_div(a: i64, b: i64, den: i64) -> (r: Option<i64>)
    ensures
        r == (if den > 0 {
            as_i64(Some(div_toward_zero(a * b, den as int)))
        } else {
            None::<i64>
        }),
{
    if den <= 0 {
        return None;
    }
    let negative = (a < 0) != (b < 0);
    let ma: u128 = if a < 0 { (-(a as i128)) as u128 } else { a as u128 };
    let mb: u128 = if b < 0 { (-(b as i128)) as u128 } else { b as u128 };
    assert(ma * mb <= 0x4000_0000_0000_0000_0000_0000_0000_0000) by (nonlinear_arith)
        requires
            ma <= 0x8000_0000_0000_0000,
            mb <= 0x8000_0000_0000_0000,
    ;
    let product: u128 = ma * mb;
    let q: u128 = product / (den as u128);
    proof {
        assert(ma * mb == a * b || ma * mb == -(a * b)) by (nonlinear_arith)
            requires
                ma == a || ma == -a,
                mb == b || mb == -b,
        ;
        if a * b >= 0 {
            assert(product == a * b) by (nonlinear_arith)
                requires
                    product == a * b || product == -(a * b),
                    a * b >= 0,
                    product >= 0,
            ;
        }
        lemma_sign_of_product(a as int, b as int);
    }
    if negative && a != 0 && b != 0 {
        if q > 9223372036854775808 {
            None
        } else {
            Some((-(q as i128)) as i64)
        }
    } else {
        if q > 9223372036854775807 {
            None
        } else {
            Some(q as i64)
        }
    }
}

/// A product is negative exactly when its factors differ in sign and neither is zero.
pub proof fn lemma_sign_of_product(a: int, b: int)
    ensures
        (a * b < 0) <==> ((a < 0) != (b < 0) && a != 0 && b != 0),
        (a == 0 || b == 0) ==> a * b == 0,
{
    assert((a * b < 0) <==> ((a < 0) != (b < 0) && a != 0 && b != 0)) by (nonlinear_arith);
    assert((a == 0 || b == 0) ==> a * b == 0) by (nonlinear_arith);
}

/// Writes `n` in decimal digits.
pub fn u64_to_string(n: u64) -> (s: String)
    ensures
        s@ == digits_of(n as nat),
{
    let mut rev: Vec<char> = Vec::new();
    let mut rest: u64 = n;
    while rest >= 10
        invariant
            digits_of(n as nat) == digits_of(rest as nat) + rev@.reverse(),
        decreases rest,
    {
        let c = (48 + (rest % 10) as u8) as char;
        rev.push(c);
        rest = rest / 10;
    }
    let first = (48 + rest as u8) as char;
    let mut s = String::new();
    s.push(first);
    let mut i: usize = rev.len();
    while i > 0
        invariant
            i <= rev.len(),
            s@ == seq![first] + rev@.reverse().take(rev.len() - i),
        decreases i,
    {
        i -= 1;
        s.push(rev[i]);
    }
    s
}

/// The decimal text of a whole number, with a minus sign where it is negative.
pub open spec fn int_text(v: int) -> Seq<char> {
    if v < 0 {
        seq!['-'] + digits_of((-v) as nat)
    } else {
        digits_of(v as nat)
    }
}

/// The digits of `frac` written in `places` decimal places, without trailing
/// zeros.
pub open spec fn places_text(frac: nat, places: nat) -> Seq<char>
    decreases places,
{
    if frac == 0 || places == 0 {
        Seq::empty()
    } else {
        let unit = pow10((places - 1) as nat);
        seq![(48 + (frac / unit) % 10) as u8 as char] + places_text(frac % unit, (places - 1) as nat)
    }
}

/// The decimal text of an amount given in millionths: a minus sign where it
/// is negative, the whole part, and, where there is a fraction, a point and
/// the decimal places without trailing zeros.
pub open spec fn amount_text(v: int) -> Seq<char> {
    let m = if v < 0 { -v } else { v };
    let sign = if v < 0 { seq!['-'] } else { Seq::<char>::empty() };
    let point = if m % 1_000_000 == 0 { Seq::<char>::empty() } else { seq!['.'] };
    sign + digits_of((m / 1_000_000) as nat) + point + places_text((m % 1_000_000) as nat, 6)
}

/// Appends the characters of `tail` to `s`.
pub fn append_text(s: &mut String, tail: &str)
    ensures
        final(s)@ == old(s)@ + tail@,
{
    let v = chars_of(tail);
    let mut i: usize = 0;
    while i < v.len()
        invariant
            i <= v.len(),
            v@ == tail@,
            s@ == old(s)@ + v@.take(i as int),
        decreases v.len() - i,
    {
        s.push(v[i]);
        i += 1;
    }
}

/// Writes a whole number in decimal digits.
pub fn i64_to_string(v: i64) -> (s: String)
    ensures
        s@ == int_text(v as int),
{
    if v < 0 {
        let m: u64 = (-(v as i128)) as u64;
        let digits = u64_to_string(m);
        let mut s = String::new();
        s.push('-');
        append_text(&mut s, digits.as_str());
        s
    } else {
        u64_to_string(v as u64)
    }
}

/// Writes an amount given in millionths as a decimal number.
pub fn format_amount(v: i64) -> (s: String)
    ensures
        s@ == amount_text(v as int),
{
    let m: u64 = if v < 0 { (-(v as i128)) as u64 } else { v as u64 };
    let whole = u64_to_string(m / 1_000_000);
    let frac: u64 = m % 1_000_000;
    let mut s = String::new();
    if v < 0 {
        s.push('-');
    }
    append_text(&mut s, whole.as_str());
    if frac != 0 {
        s.push('.');
    }
    let mut rest: u64 = frac;
    let mut unit: u64 = 100_000;
    let mut places: usize = 6;
    proof {
        reveal_with_fuel(pow10, 8);
    }
    while rest != 0 && places != 0
        invariant
            places <= 6,
            places > 0 ==> unit == pow10((places - 1) as nat),
            rest < pow10(places as nat),
            s@ + places_text(rest as nat, places as nat) == amount_text(v as int),
        decreases places,
    {
        let digit: u64 = rest / unit;
        assert(digit < 10) by (nonlinear_arith)
            requires
                digit == rest / unit,
                rest < 10 * unit,
                unit > 0,
        ;
        let c = (48 + digit as u8) as char;
        s.push(c);
        rest = rest % unit;
        unit = unit / 10;
        places = places - 1;
    }
    s
}

} // verus!
