//! Character classes of the language's lexical grammar, and runs of them.
//!
//! Every token pattern is built from a handful of character classes
//! (whitespace, decimal digits, letters, variable-name characters) and
//! from maximal runs of one class starting at a position. Both are
//! defined here as spec functions, with executable counterparts proved
//! against them.

use vstd::prelude::*;

verus! {

/// Whitespace, as the token patterns understand it: the ASCII
/// whitespace characters (space, tab, line feed, vertical tab, form
/// feed, carriage return).
pub open spec fn is_space_char(c: char) -> bool {
    c == ' ' || c == '\t' || c == '\n' || c == '\u{b}' || c == '\u{c}' || c == '\r'
}

/// A decimal digit.
pub open spec fn is_digit_char(c: char) -> bool {
    '0' <= c && c <= '9'
}

/// A lower-case ASCII letter.
pub open spec fn is_lower_char(c: char) -> bool {
    'a' <= c && c <= 'z'
}

/// An upper-case ASCII letter.
pub open spec fn is_upper_char(c: char) -> bool {
    'A' <= c && c <= 'Z'
}

/// An ASCII letter of either case.
pub open spec fn is_alpha_char(c: char) -> bool {
    is_lower_char(c) || is_upper_char(c)
}

/// A character allowed in a variable name after the `$` sign.
pub open spec fn is_name_char(c: char) -> bool {
    is_alpha_char(c) || c == '_'
}

pub fn is_space(c: char) -> (r: bool)
    ensures
        r == is_space_char(c),
{
    c == ' ' || c == '\t' || c == '\n' || c == '\u{b}' || c == '\u{c}' || c == '\r'
}

pub fn is_digit(c: char) -> (r: bool)
    ensures
        r == is_digit_char(c),
{
    '0' <= c && c <= '9'
}

pub fn is_lower(c: char) -> (r: bool)
    ensures
        r == is_lower_char(c),
{
    'a' <= c && c <= 'z'
}

pub fn is_upper(c: char) -> (r: bool)
    ensures
        r == is_upper_char(c),
{
    'A' <= c && c <= 'Z'
}

pub fn is_alpha(c: char) -> (r: bool)
    ensures
        r == is_alpha_char(c),
{
    is_lower(c) || is_upper(c)
}

pub fn is_name(c: char) -> (r: bool)
    ensures
        r == is_name_char(c),
{
    is_alpha(c) || c == '_'
}

/// Length of the maximal run of characters satisfying `pred`,
/// starting at position `i` of `s`.
pub open spec fn run_len(s: Seq<char>, i: int, pred: spec_fn(char) -> bool) -> int
    decreases s.len() - i,
{
    if i < 0 || i >= s.len() {
        0
    } else if pred(s[i]) {
        1 + run_len(s, i + 1, pred)
    } else {
        0
    }
}

/// A maximal run reaches exactly as far as `pred` holds: if every
/// character in `[i, j)` satisfies `pred` and position `j` does not
/// (or is the end), the run at `i` has length `j - i`.
pub proof fn lemma_run_len_is(s: Seq<char>, i: int, j: int, pred: spec_fn(char) -> bool)
    requires
        0 <= i <= j <= s.len(),
        forall|k: int| i <= k < j ==> pred(s[k]),
        j == s.len() || !pred(s[j]),
    ensures
        run_len(s, i, pred) == j - i,
    decreases j - i,
{
    if i < j {
        lemma_run_len_is(s, i + 1, j, pred);
    }
}

/// The run length is non-negative and stays within the sequence.
pub proof fn lemma_run_len_bounds(s: Seq<char>, i: int, pred: spec_fn(char) -> bool)
    requires
        0 <= i <= s.len(),
    ensures
        0 <= run_len(s, i, pred),
        i + run_len(s, i, pred) <= s.len(),
        forall|k: int| i <= k < i + run_len(s, i, pred) ==> pred(s[k]),
        i + run_len(s, i, pred) == s.len() || !pred(s[i + run_len(s, i, pred)]),
    decreases s.len() - i,
{
    if i < s.len() && pred(s[i]) {
        lemma_run_len_bounds(s, i + 1, pred);
    }
}

/// The code point the rotation alphabet of `c` starts at: `A` for an
/// upper-case letter, `a` otherwise.
pub open spec fn alpha_base(c: char) -> int {
    if is_upper_char(c) {
        'A' as int
    } else {
        'a' as int
    }
}

/// The letter `k` positions after `c` in its 26-letter case-preserving
/// alphabet, wrapping around; `k` may be negative.
pub open spec fn alpha_shift(c: char, k: int) -> char {
    (alpha_base(c) + ((c as int - alpha_base(c) + k) % 26)) as char
}

/// The rotation the operators apply to one character: whitespace
/// passes through unchanged, a letter rotates within its alphabet.
/// Meaningful for whitespace and letters only; other characters are
/// rejected before this is applied.
pub open spec fn char_shift(c: char, k: int) -> char {
    if is_space_char(c) {
        c
    } else {
        alpha_shift(c, k)
    }
}

/// A shifted letter is a letter of the same case.
pub proof fn lemma_alpha_shift_alpha(c: char, k: int)
    requires
        is_alpha_char(c),
    ensures
        is_alpha_char(alpha_shift(c, k)),
        is_upper_char(c) ==> is_upper_char(alpha_shift(c, k)),
        is_lower_char(c) ==> is_lower_char(alpha_shift(c, k)),
{
    let m = (c as int - alpha_base(c) + k) % 26;
    vstd::arithmetic::div_mod::lemma_mod_bound(c as int - alpha_base(c) + k, 26);
    assert(0 <= m < 26);
}

/// Rotates `c` forward by `other` positions: a letter moves through
/// its 26-letter case-preserving alphabet, wrapping from `z` back to
/// `a`; whitespace passes through unchanged.
pub fn char_add(c: &char, other: u32) -> (r: char)
    requires
        is_alpha_char(*c) || is_space_char(*c),
    ensures
        r == char_shift(*c, other as int),
{
    if is_space(*c) {
        return *c;
    }
    let base: u32 = if is_upper(*c) {
        65
    } else {
        97
    };
    let x = (*c as u32 - base) as u64;
    let sh = ((x + (other as u64)) % 26) as u32;
    proof {
        assert(sh == (*c as int - alpha_base(*c) + other as int) % 26);
    }
    ((base + sh) as u8) as char
}

/// Rotates `c` backward by `other` positions: the inverse of
/// [`char_add`], wrapping from `a` back to `z`; whitespace passes
/// through unchanged.
pub fn char_sub(c: &char, other: u32) -> (r: char)
    requires
        is_alpha_char(*c) || is_space_char(*c),
    ensures
        r == char_shift(*c, -(other as int)),
{
    if is_space(*c) {
        return *c;
    }
    let base: u32 = if is_upper(*c) {
        65
    } else {
        97
    };
    let x = (*c as u32 - base) as u64;
    let o = (other % 26) as u64;
    let sh = ((x + 26 - o) % 26) as u32;
    proof {
        let xi = *c as int - alpha_base(*c);
        let q = (other as int) / 26;
        vstd::arithmetic::div_mod::lemma_mod_multiples_vanish(-(q + 1), xi + 26 - o, 26);
        assert(26 * (-(q + 1)) + (xi + 26 - o) == xi - other) by {
            assert(other as int == 26 * q + o);
        }
        assert(sh == (xi - other) % 26);
    }
    ((base + sh) as u8) as char
}

/// Length of the whitespace run starting at `i`.
pub fn run_space(s: &Vec<char>, i: usize) -> (r: usize)
    requires
        i <= s.len(),
    ensures
        r == run_len(s@, i as int, |c: char| is_space_char(c)),
        i + r <= s.len(),
{
    let ghost pred = |c: char| is_space_char(c);
    let mut j: usize = i;
    while j < s.len() && is_space(s[j])
        invariant
            pred == (|c: char| is_space_char(c)),
            i <= j <= s.len(),
            forall|k: int| i <= k < j ==> pred(s@[k]),
        decreases s.len() - j,
    {
        j = j + 1;
    }
    proof {
        lemma_run_len_is(s@, i as int, j as int, pred);
    }
    j - i
}

/// Length of the decimal-digit run starting at `i`.
pub fn run_digit(s: &Vec<char>, i: usize) -> (r: usize)
    requires
        i <= s.len(),
    ensures
        r == run_len(s@, i as int, |c: char| is_digit_char(c)),
        i + r <= s.len(),
{
    let ghost pred = |c: char| is_digit_char(c);
    let mut j: usize = i;
    while j < s.len() && is_digit(s[j])
        invariant
            pred == (|c: char| is_digit_char(c)),
            i <= j <= s.len(),
            forall|k: int| i <= k < j ==> pred(s@[k]),
        decreases s.len() - j,
    {
        j = j + 1;
    }
    proof {
        lemma_run_len_is(s@, i as int, j as int, pred);
    }
    j - i
}

/// Length of the variable-name-character run starting at `i`.
pub fn run_name(s: &Vec<char>, i: usize) -> (r: usize)
    requires
        i <= s.len(),
    ensures
        r == run_len(s@, i as int, |c: char| is_name_char(c)),
        i + r <= s.len(),
{
    let ghost pred = |c: char| is_name_char(c);
    let mut j: usize = i;
    while j < s.len() && is_name(s[j])
        invariant
            pred == (|c: char| is_name_char(c)),
            i <= j <= s.len(),
            forall|k: int| i <= k < j ==> pred(s@[k]),
        decreases s.len() - j,
    {
        j = j + 1;
    }
    proof {
        lemma_run_len_is(s@, i as int, j as int, pred);
    }
    j - i
}

/// Length of the non-whitespace run starting at `i`.
pub fn run_nonspace(s: &Vec<char>, i: usize) -> (r: usize)
    requires
        i <= s.len(),
    ensures
        r == run_len(s@, i as int, |c: char| !is_space_char(c)),
        i + r <= s.len(),
{
    let ghost pred = |c: char| !is_space_char(c);
    let mut j: usize = i;
    while j < s.len() && !is_space(s[j])
        invariant
            pred == (|c: char| !is_space_char(c)),
            i <= j <= s.len(),
            forall|k: int| i <= k < j ==> pred(s@[k]),
        decreases s.len() - j,
    {
        j = j + 1;
    }
    proof {
        lemma_run_len_is(s@, i as int, j as int, pred);
    }
    j - i
}

/// Length of the run of non-quote characters starting at `i`.
pub fn run_nonquote(s: &Vec<char>, i: usize) -> (r: usize)
    requires
        i <= s.len(),
    ensures
        r == run_len(s@, i as int, |c: char| c != '"'),
        i + r <= s.len(),
{
    let ghost pred = |c: char| c != '"';
    let mut j: usize = i;
    while j < s.len() && s[j] != '"'
        invariant
            pred == (|c: char| c != '"'),
            i <= j <= s.len(),
            forall|k: int| i <= k < j ==> pred(s@[k]),
        decreases s.len() - j,
    {
        j = j + 1;
    }
    proof {
        lemma_run_len_is(s@, i as int, j as int, pred);
    }
    j - i
}

} // verus!
