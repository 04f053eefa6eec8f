//! Decimal text: the numeric literals the interpreter reads and the
//! decimal renderings it prints.
//!
//! Integer values are 64-bit signed; float literals are kept exactly,
//! as an integer numerator over a power of ten (`num / 10^scale`), so
//! increment and decrement on them are exact decimal arithmetic.

use vstd::prelude::*;

use crate::chars::is_digit_char;
use crate::strutil::char_to_string;
use crate::strutil::push_char;

verus! {

/// The numeric value of a digit character.
pub open spec fn digit_val(c: char) -> int {
    c as int - '0' as int
}

/// The digit character of a value below ten.
pub open spec fn digit_char(d: int) -> char {
    (('0' as int) + d) as char
}

/// One or more decimal digits.
pub open spec fn is_digits(s: Seq<char>) -> bool {
    s.len() >= 1 && forall|k: int| 0 <= k < s.len() ==> is_digit_char(#[trigger] s[k])
}

/// The value of a digit string, most significant digit first.
pub open spec fn dec_value(s: Seq<char>) -> int
    decreases s.len(),
{
    if s.len() == 0 {
        0
    } else {
        dec_value(s.drop_last()) * 10 + digit_val(s.last())
    }
}

/// A digit string's value is non-negative.
pub proof fn lemma_dec_value_nonneg(s: Seq<char>)
    requires
        forall|k: int| 0 <= k < s.len() ==> is_digit_char(#[trigger] s[k]),
    ensures
        dec_value(s) >= 0,
    decreases s.len(),
{
    if s.len() > 0 {
        lemma_dec_value_nonneg(s.drop_last());
    }
}

/// The decimal text of a non-negative number, without sign.
pub open spec fn nat_to_text(n: int) -> Seq<char>
    decreases n,
{
    if n < 10 {
        seq![digit_char(if n >= 0 {
            n
        } else {
            0
        })]
    } else {
        nat_to_text(n / 10).push(digit_char(n % 10))
    }
}

/// The decimal text of an integer: a minus sign for negative values,
/// then the digits of the magnitude.
pub open spec fn int_to_text(n: int) -> Seq<char> {
    if n < 0 {
        seq!['-'] + nat_to_text(-n)
    } else {
        nat_to_text(n)
    }
}

/// Decimal text is all digits.
pub proof fn lemma_nat_to_text_digits(n: int)
    requires
        n >= 0,
    ensures
        is_digits(nat_to_text(n)),
    decreases n,
{
    if n >= 10 {
        lemma_nat_to_text_digits(n / 10);
        let s = nat_to_text(n);
        let p = nat_to_text(n / 10);
        assert(forall|k: int| 0 <= k < s.len() - 1 ==> s[k] == p[k]);
    }
}

/// Reading back the decimal text of a number gives the number.
pub proof fn lemma_nat_text_value(n: int)
    requires
        n >= 0,
    ensures
        dec_value(nat_to_text(n)) == n,
    decreases n,
{
    if n < 10 {
        let s = nat_to_text(n);
        assert(s.drop_last() =~= Seq::<char>::empty());
        assert(dec_value(Seq::<char>::empty()) == 0);
        assert(s.last() == digit_char(n));
        assert(digit_val(digit_char(n)) == n);
    } else {
        lemma_nat_text_value(n / 10);
        let s = nat_to_text(n);
        assert(s.drop_last() =~= nat_to_text(n / 10));
        assert(s.last() == digit_char(n % 10));
        assert(digit_val(digit_char(n % 10)) == n % 10);
    }
}

/// An integer literal: one or more digits, with an optional leading
/// minus sign.
pub open spec fn is_int_literal(s: Seq<char>) -> bool {
    if s.len() >= 1 && s[0] == '-' {
        is_digits(s.skip(1))
    } else {
        is_digits(s)
    }
}

/// The value of an integer literal.
pub open spec fn int_literal_value(s: Seq<char>) -> int {
    if s.len() >= 1 && s[0] == '-' {
        -dec_value(s.skip(1))
    } else {
        dec_value(s)
    }
}

/// What reading a 64-bit integer from `s` yields: the value when `s`
/// is an integer literal that fits, nothing otherwise.
pub open spec fn spec_parse_i64(s: Seq<char>) -> Option<int> {
    if is_int_literal(s) && i64::MIN <= int_literal_value(s) <= i64::MAX {
        Option::Some(int_literal_value(s))
    } else {
        Option::None
    }
}

/// What reading a repeat count from `s` yields: the value when `s` is
/// all digits and fits in 32 bits, nothing otherwise.
pub open spec fn spec_parse_u32(s: Seq<char>) -> Option<int> {
    if is_digits(s) && dec_value(s) <= u32::MAX {
        Option::Some(dec_value(s))
    } else {
        Option::None
    }
}

/// Every character of the digit run `s[from..to]` is a digit exactly
/// when every character of that subrange is.
proof fn lemma_sub_digits(s: Seq<char>, from: int, to: int)
    requires
        0 <= from <= to <= s.len(),
        forall|j: int| 0 <= j < to - from ==> is_digit_char(#[trigger] s.subrange(from, to)[j]),
    ensures
        forall|j: int| from <= j < to ==> is_digit_char(#[trigger] s[j]),
{
    assert forall|j: int| from <= j < to implies is_digit_char(#[trigger] s[j]) by {
        assert(is_digit_char(s.subrange(from, to)[j - from]));
    }
}

/// Reads the digit run `s[from..to]` as a number, refusing a value
/// above `limit`.
fn parse_digits(s: &Vec<char>, from: usize, to: usize, limit: u128) -> (r: Option<u128>)
    requires
        from <= to <= s.len(),
        limit >= 9,
    ensures
        ({
            let text = s@.subrange(from as int, to as int);
            (forall|k: int| 0 <= k < text.len() ==> is_digit_char(#[trigger] text[k])) ==> match r {
                Option::Some(v) => dec_value(text) <= limit && v == dec_value(text),
                Option::None => dec_value(text) > limit,
            }
        }),
{
    let ghost text = s@.subrange(from as int, to as int);
    let mut acc: u128 = 0;
    let mut k: usize = from;
    while k < to
        invariant
            from <= k <= to <= s.len(),
            text == s@.subrange(from as int, to as int),
            limit >= 9,
            (forall|j: int| from <= j < k ==> is_digit_char(#[trigger] s@[j])) ==> acc == dec_value(
                s@.subrange(from as int, k as int),
            ) && acc <= limit,
        decreases to - k,
    {
        let c = s[k];
        let d: u128 = if '0' <= c && c <= '9' {
            (c as u32 - '0' as u32) as u128
        } else {
            0
        };
        proof {
            assert(d <= 9);
        }
        if acc > (limit - d) / 10 {
            proof {
                if forall|j: int| 0 <= j < text.len() ==> is_digit_char(#[trigger] text[j]) {
                    lemma_sub_digits(s@, from as int, to as int);
                    assert(acc == dec_value(s@.subrange(from as int, k as int)));
                    assert(is_digit_char(s@[k as int]));
                    assert(d == digit_val(s@[k as int]));
                    assert(acc * 10 + d > limit) by (nonlinear_arith)
                        requires
                            acc as int > ((limit - d) as int) / 10,
                            limit >= d,
                            d <= 9,
                    ;
                    lemma_dec_prefix_exceeds(s@, from as int, k as int, to as int, limit as int);
                }
            }
            return Option::None;
        }
        proof {
            assert(acc as int * 10 + d <= limit) by (nonlinear_arith)
                requires
                    acc as int <= ((limit - d) as int) / 10,
                    limit >= d,
                    d >= 0,
            ;
        }
        acc = 10 * acc + d;
        k = k + 1;
        proof {
            assert(s@.subrange(from as int, k as int).drop_last() =~= s@.subrange(
                from as int,
                (k - 1) as int,
            ));
            assert(s@.subrange(from as int, k as int).last() == s@[k - 1]);
            if forall|j: int| from <= j < k ==> is_digit_char(#[trigger] s@[j]) {
                assert(is_digit_char(s@[k - 1]));
            }
        }
    }
    proof {
        assert(s@.subrange(from as int, k as int) =~= text);
        if forall|j: int| 0 <= j < text.len() ==> is_digit_char(#[trigger] text[j]) {
            lemma_sub_digits(s@, from as int, to as int);
        }
    }
    Option::Some(acc)
}

/// If a prefix of a digit run already exceeds `limit`, the whole run
/// does.
proof fn lemma_dec_prefix_exceeds(s: Seq<char>, from: int, k: int, to: int, limit: int)
    requires
        0 <= from <= k < to <= s.len(),
        forall|j: int| from <= j < to ==> is_digit_char(#[trigger] s[j]),
        dec_value(s.subrange(from, k)) * 10 + digit_val(s[k]) > limit,
    ensures
        dec_value(s.subrange(from, to)) > limit,
{
    assert(s.subrange(from, k + 1).drop_last() =~= s.subrange(from, k));
    assert(s.subrange(from, k + 1).last() == s[k]);
    lemma_dec_le_extend(s, from, k + 1, to);
}

/// A digit run's value only grows as it extends.
proof fn lemma_dec_le_extend(s: Seq<char>, from: int, k: int, to: int)
    requires
        0 <= from <= k <= to <= s.len(),
        forall|j: int| from <= j < to ==> is_digit_char(#[trigger] s[j]),
    ensures
        dec_value(s.subrange(from, k)) <= dec_value(s.subrange(from, to)),
    decreases to - k,
{
    if k < to {
        lemma_dec_le_extend(s, from, k + 1, to);
        assert(s.subrange(from, k + 1).drop_last() =~= s.subrange(from, k));
        assert(s.subrange(from, k + 1).last() == s[k]);
        lemma_dec_value_nonneg(s.subrange(from, k));
        assert(dec_value(s.subrange(from, k)) * 10 + digit_val(s[k]) >= dec_value(
            s.subrange(from, k),
        )) by (nonlinear_arith)
            requires
                dec_value(s.subrange(from, k)) >= 0,
                digit_val(s[k]) >= 0,
        ;
    }
}

/// Whether every character in `s[from..to]` is a digit.
fn all_digits(s: &Vec<char>, from: usize, to: usize) -> (r: bool)
    requires
        from <= to <= s.len(),
    ensures
        r == (forall|j: int| from <= j < to ==> is_digit_char(#[trigger] s@[j])),
{
    let mut k: usize = from;
    while k < to
        invariant
            from <= k <= to <= s.len(),
            forall|j: int| from <= j < k ==> is_digit_char(#[trigger] s@[j]),
        decreases to - k,
    {
        let c = s[k];
        if !('0' <= c && c <= '9') {
            return false;
        }
        k = k + 1;
    }
    true
}

/// Reads a 64-bit integer: an optional minus sign, then digits.
pub fn parse_i64(s: &Vec<char>) -> (r: Option<i64>)
    ensures
        match r {
            Option::Some(v) => spec_parse_i64(s@) == Option::Some(v as int),
            Option::None => spec_parse_i64(s@) == Option::<int>::None,
        },
{
    if s.len() == 0 {
        return Option::None;
    }
    let neg = s[0] == '-';
    let start: usize = if neg {
        1
    } else {
        0
    };
    proof {
        if neg {
            assert(s@.subrange(start as int, s@.len() as int) =~= s@.skip(1));
        } else {
            assert(s@.subrange(start as int, s@.len() as int) =~= s@);
        }
    }
    if start == s.len() {
        return Option::None;
    }
    if !all_digits(s, start, s.len()) {
        proof {
            let text = s@.subrange(start as int, s@.len() as int);
            let j = choose|j: int| start <= j < s@.len() && !is_digit_char(s@[j]);
            assert(text[j - start] == s@[j]);
            assert(!is_digits(text));
        }
        return Option::None;
    }
    let limit: u128 = if neg {
        0x8000_0000_0000_0000
    } else {
        0x7fff_ffff_ffff_ffff
    };
    let ghost text = s@.subrange(start as int, s@.len() as int);
    proof {
        assert(forall|j: int| 0 <= j < text.len() ==> is_digit_char(#[trigger] text[j]));
        lemma_dec_value_nonneg(text);
    }
    match parse_digits(s, start, s.len(), limit) {
        Option::Some(m) => {
            if neg {
                let v = -(m as i128);
                Option::Some(v as i64)
            } else {
                Option::Some(m as i64)
            }
        },
        Option::None => Option::None,
    }
}

/// Reads a repeat count: digits only.
pub fn parse_u32(s: &Vec<char>) -> (r: Option<u32>)
    ensures
        match r {
            Option::Some(v) => spec_parse_u32(s@) == Option::Some(v as int),
            Option::None => spec_parse_u32(s@) == Option::<int>::None,
        },
{
    if s.len() == 0 {
        return Option::None;
    }
    if !all_digits(s, 0, s.len()) {
        return Option::None;
    }
    let ghost text = s@.subrange(0, s@.len() as int);
    proof {
        assert(text =~= s@);
        lemma_dec_value_nonneg(text);
    }
    match parse_digits(s, 0, s.len(), 0xffff_ffff) {
        Option::Some(m) => Option::Some(m as u32),
        Option::None => Option::None,
    }
}

/// Ten to the `k`th.
pub open spec fn pow10(k: int) -> int
    decreases k,
{
    if k <= 0 {
        1
    } else {
        10 * pow10(k - 1)
    }
}

/// Powers of ten grow with the exponent.
pub proof fn lemma_pow10_le(a: int, b: int)
    requires
        a <= b,
    ensures
        1 <= pow10(a) <= pow10(b),
    decreases b,
{
    if b <= 0 {
    } else if a == b {
        lemma_pow10_le(a - 1, b - 1);
    } else {
        lemma_pow10_le(a, b - 1);
    }
}

/// Up to the 38th, a power of ten fits a 128-bit signed integer.
pub proof fn lemma_pow10_fits(k: int)
    requires
        k <= 38,
    ensures
        pow10(k) <= 0x4b3b4ca85a86c47a098a224000000000,
{
    assert(pow10(38) == 0x4b3b4ca85a86c47a098a224000000000) by {
        reveal_with_fuel(pow10, 40);
    }
    lemma_pow10_le(k, 38);
}

/// Ten to the `k`th, executable.
pub fn pow10_u128(k: u32) -> (r: u128)
    requires
        k <= 38,
    ensures
        r == pow10(k as int),
{
    let mut r: u128 = 1;
    let mut j: u32 = 0;
    while j < k
        invariant
            j <= k <= 38,
            r == pow10(j as int),
        decreases k - j,
    {
        proof {
            lemma_pow10_fits(j as int + 1);
        }
        r = r * 10;
        j = j + 1;
    }
    r
}

/// The position of the first dot at or after `i`, or `-1`.
pub open spec fn find_dot(s: Seq<char>, i: int) -> int
    decreases s.len() - i,
{
    if i < 0 || i >= s.len() {
        -1
    } else if s[i] == '.' {
        i
    } else {
        find_dot(s, i + 1)
    }
}

/// Where a dot is found, it is a dot inside the sequence.
pub proof fn lemma_find_dot(s: Seq<char>, i: int)
    requires
        0 <= i,
    ensures
        find_dot(s, i) == -1 || (i <= find_dot(s, i) < s.len() && s[find_dot(s, i)] == '.'),
    decreases s.len() - i,
{
    if 0 <= i < s.len() && s[i] != '.' {
        lemma_find_dot(s, i + 1);
    }
}

/// A float literal: an optional minus sign, one or more digits, a dot,
/// one or more digits. `sign_len(s)` is 1 when the sign is present.
pub open spec fn sign_len(s: Seq<char>) -> int {
    if s.len() >= 1 && s[0] == '-' {
        1
    } else {
        0
    }
}

/// Whether `s` is a float literal.
pub open spec fn is_float_literal(s: Seq<char>) -> bool {
    let b = sign_len(s);
    let dot = find_dot(s, b);
    &&& dot >= 0
    &&& is_digits(s.subrange(b, dot))
    &&& is_digits(s.subrange(dot + 1, s.len() as int))
}

/// The number of fraction digits of a float literal.
pub open spec fn float_scale(s: Seq<char>) -> int {
    s.len() - find_dot(s, sign_len(s)) - 1
}

/// The magnitude of a float literal, as an integer numerator over
/// `pow10(float_scale(s))`.
pub open spec fn float_magnitude(s: Seq<char>) -> int {
    let b = sign_len(s);
    let dot = find_dot(s, b);
    dec_value(s.subrange(b, dot)) * pow10(s.len() - dot - 1) + dec_value(
        s.subrange(dot + 1, s.len() as int),
    )
}

/// What reading a float from `s` yields: the exact decimal value as a
/// numerator and a scale, when `s` is a float literal whose digits fit
/// the model; nothing otherwise.
pub open spec fn spec_parse_float(s: Seq<char>) -> Option<(int, int)> {
    if is_float_literal(s) && float_scale(s) <= 38 && float_magnitude(s) <= i128::MAX {
        let m = if sign_len(s) == 1 {
            -float_magnitude(s)
        } else {
            float_magnitude(s)
        };
        Option::Some((m, float_scale(s)))
    } else {
        Option::None
    }
}

/// Finds the first dot at or after `from`.
fn find_dot_at(s: &Vec<char>, from: usize) -> (r: Option<usize>)
    requires
        from <= s.len(),
    ensures
        match r {
            Option::Some(d) => find_dot(s@, from as int) == d as int && from <= d < s.len(),
            Option::None => find_dot(s@, from as int) == -1,
        },
{
    let mut k: usize = from;
    while k < s.len()
        invariant
            from <= k <= s.len(),
            find_dot(s@, from as int) == find_dot(s@, k as int),
        decreases s.len() - k,
    {
        if s[k] == '.' {
            return Option::Some(k);
        }
        k = k + 1;
    }
    Option::None
}

/// Reads a float literal into the exact decimal model: the numerator
/// and the scale, with `value == num / pow10(scale)`.
pub fn parse_float(s: &Vec<char>) -> (r: Option<(i128, u32)>)
    ensures
        match r {
            Option::Some(v) => spec_parse_float(s@) == Option::Some((v.0 as int, v.1 as int)),
            Option::None => spec_parse_float(s@) == Option::<(int, int)>::None,
        },
{
    if s.len() == 0 {
        return Option::None;
    }
    let neg = s[0] == '-';
    let b: usize = if neg {
        1
    } else {
        0
    };
    let dot = match find_dot_at(s, b) {
        Option::Some(d) => d,
        Option::None => {
            return Option::None;
        },
    };
    let ghost ip = s@.subrange(b as int, dot as int);
    let ghost fp = s@.subrange(dot as int + 1, s@.len() as int);
    if dot == b {
        return Option::None;
    }
    if !all_digits(s, b, dot) {
        proof {
            let j = choose|j: int| b <= j < dot && !is_digit_char(s@[j]);
            assert(ip[j - b] == s@[j]);
        }
        return Option::None;
    }
    if dot + 1 == s.len() {
        return Option::None;
    }
    if !all_digits(s, dot + 1, s.len()) {
        proof {
            let j = choose|j: int| dot + 1 <= j < s@.len() && !is_digit_char(s@[j]);
            assert(fp[j - (dot + 1)] == s@[j]);
        }
        return Option::None;
    }
    proof {
        assert(forall|j: int| 0 <= j < ip.len() ==> is_digit_char(#[trigger] ip[j]));
        assert(forall|j: int| 0 <= j < fp.len() ==> is_digit_char(#[trigger] fp[j]));
        lemma_dec_value_nonneg(ip);
        lemma_dec_value_nonneg(fp);
    }
    let scale = s.len() - dot - 1;
    if scale > 38 {
        return Option::None;
    }
    let limit: u128 = 0x7fff_ffff_ffff_ffff_ffff_ffff_ffff_ffff;
    let a = match parse_digits(s, b, dot, limit) {
        Option::Some(a) => a,
        Option::None => {
            proof {
                lemma_magnitude_large(dec_value(ip), dec_value(fp), s@.len() - dot as int - 1);
            }
            return Option::None;
        },
    };
    let f = match parse_digits(s, dot + 1, s.len(), limit) {
        Option::Some(f) => f,
        Option::None => {
            proof {
                lemma_magnitude_large_frac(dec_value(ip), dec_value(fp), s@.len() - dot as int - 1);
            }
            return Option::None;
        },
    };
    let p = pow10_u128(scale as u32);
    proof {
        lemma_pow10_fits(scale as int);
        lemma_pow10_le(0, scale as int);
    }
    if a > (limit - f) / p {
        proof {
            assert(a as int * p as int + f > limit) by (nonlinear_arith)
                requires
                    a as int > ((limit - f) as int) / (p as int),
                    limit >= f,
                    p >= 1,
            ;
        }
        return Option::None;
    }
    proof {
        assert(a as int * p as int + f <= limit) by (nonlinear_arith)
            requires
                a as int <= ((limit - f) as int) / (p as int),
                limit >= f,
                p >= 1,
                f >= 0,
                a >= 0,
        ;
    }
    let mag = a * p + f;
    if neg {
        let v = -(mag as i128);
        Option::Some((v, scale as u32))
    } else {
        Option::Some((mag as i128, scale as u32))
    }
}

/// A magnitude whose integer digits alone exceed the limit exceeds it.
proof fn lemma_magnitude_large(a: int, f: int, scale: int)
    requires
        a > i128::MAX,
        f >= 0,
        scale >= 0,
    ensures
        a * pow10(scale) + f > i128::MAX,
{
    lemma_pow10_le(0, scale);
    assert(a * pow10(scale) >= a) by (nonlinear_arith)
        requires
            a >= 0,
            pow10(scale) >= 1,
    ;
}

/// A magnitude whose fraction digits alone exceed the limit exceeds
/// it.
proof fn lemma_magnitude_large_frac(a: int, f: int, scale: int)
    requires
        a >= 0,
        f > i128::MAX,
        scale >= 0,
    ensures
        a * pow10(scale) + f > i128::MAX,
{
    lemma_pow10_le(0, scale);
    assert(a * pow10(scale) >= 0) by (nonlinear_arith)
        requires
            a >= 0,
            pow10(scale) >= 1,
    ;
}

/// The decimal text of `m`, zero-padded to exactly `k` digits (the
/// fraction part of a float rendering).
pub open spec fn pad_text(m: int, k: int) -> Seq<char>
    decreases k,
{
    if k <= 0 {
        Seq::empty()
    } else {
        pad_text(m / 10, k - 1).push(digit_char(m % 10))
    }
}

/// The decimal text of a float value `num / pow10(scale)`: the sign,
/// the integer part, a dot, and exactly `scale` fraction digits.
pub open spec fn float_to_text(num: int, scale: int) -> Seq<char> {
    let mag = if num < 0 {
        -num
    } else {
        num
    };
    let sign: Seq<char> = if num < 0 {
        seq!['-']
    } else {
        Seq::empty()
    };
    sign + nat_to_text(mag / pow10(scale)) + seq!['.'] + pad_text(mag % pow10(scale), scale)
}

/// The decimal text of a non-negative number.
pub fn nat_to_string(m: u128) -> (r: String)
    ensures
        r@ == nat_to_text(m as int),
    decreases m,
{
    if m < 10 {
        let c = (('0' as u8) + (m as u8)) as char;
        proof {
            assert(c == digit_char(m as int));
        }
        let r = char_to_string(c);
        proof {
            assert(r@ =~= nat_to_text(m as int));
        }
        r
    } else {
        let mut r = nat_to_string(m / 10);
        let c = (('0' as u8) + ((m % 10) as u8)) as char;
        proof {
            assert(c == digit_char(m as int % 10));
        }
        push_char(&mut r, c);
        r
    }
}

/// The decimal text of a 64-bit integer.
pub fn int_to_string(n: i64) -> (r: String)
    ensures
        r@ == int_to_text(n as int),
{
    if n < 0 {
        let m = (-(n as i128)) as u128;
        let mut r = char_to_string('-');
        let digits = nat_to_string(m);
        r.append(digits.as_str());
        proof {
            assert(r@ =~= int_to_text(n as int));
        }
        r
    } else {
        nat_to_string(n as u128)
    }
}

/// The decimal text of `m`, zero-padded to exactly `k` digits.
pub fn pad_string(m: u128, k: u32) -> (r: String)
    ensures
        r@ == pad_text(m as int, k as int),
    decreases k,
{
    if k == 0 {
        let r = String::new();
        proof {
            assert(r@ =~= pad_text(m as int, k as int));
        }
        r
    } else {
        let mut r = pad_string(m / 10, k - 1);
        let c = (('0' as u8) + ((m % 10) as u8)) as char;
        proof {
            assert(c == digit_char(m as int % 10));
        }
        push_char(&mut r, c);
        r
    }
}

/// The decimal text of a float value in the exact decimal model.
pub fn float_to_string(num: i128, scale: u32) -> (r: String)
    requires
        scale <= 38,
        -i128::MAX <= num,
    ensures
        r@ == float_to_text(num as int, scale as int),
{
    let mag: u128 = if num < 0 {
        (-num) as u128
    } else {
        num as u128
    };
    let p = pow10_u128(scale);
    proof {
        lemma_pow10_le(0, scale as int);
    }
    let ip = mag / p;
    let fp = mag % p;
    let mut r = if num < 0 {
        char_to_string('-')
    } else {
        String::new()
    };
    let ip_digits = nat_to_string(ip);
    r.append(ip_digits.as_str());
    push_char(&mut r, '.');
    let fp_digits = pad_string(fp, scale);
    r.append(fp_digits.as_str());
    proof {
        assert(r@ =~= float_to_text(num as int, scale as int));
    }
    r
}

} // verus!
