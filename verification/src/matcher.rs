//! The token patterns, and first-match scanning.
//!
//! Each token kind has a pattern anchored at the current position. A
//! pattern match has a *core* (the meaningful text) and, for most
//! kinds, a run of trailing whitespace that the match absorbs as a
//! separator. Scanning tries the patterns in [`precedence_order`] and
//! the first that matches wins; at any position short of the end some
//! pattern matches (whitespace or, failing everything else, `Unknown`),
//! so scanning always makes progress.

use vstd::prelude::*;

use crate::chars::is_alpha;
use crate::chars::is_alpha_char;
use crate::chars::is_digit_char;
use crate::chars::is_name_char;
use crate::chars::is_space_char;
use crate::chars::lemma_run_len_bounds;
use crate::chars::run_digit;
use crate::chars::run_len;
use crate::chars::run_name;
use crate::chars::run_nonquote;
use crate::chars::run_nonspace;
use crate::chars::run_space;
use crate::tokens::TokenName;
use crate::tokens::precedence_order;

verus! {

/// Length of the whitespace run at `j` (the separator a match absorbs).
pub open spec fn ws_at(s: Seq<char>, j: int) -> int {
    run_len(s, j, |c: char| is_space_char(c))
}

/// Length of the decimal-digit run at `j`.
pub open spec fn digits_at(s: Seq<char>, j: int) -> int {
    run_len(s, j, |c: char| is_digit_char(c))
}

/// Core of the `Whitespace` pattern: one or more whitespace characters.
pub open spec fn whitespace_core(s: Seq<char>, i: int) -> int {
    ws_at(s, i)
}

/// Core of the `Repeater` pattern: `{`, one or more digits, `}`.
pub open spec fn repeater_core(s: Seq<char>, i: int) -> int {
    let d = digits_at(s, i + 1);
    if i < s.len() && s[i] == '{' && d >= 1 && i + 1 + d < s.len() && s[i + 1 + d] == '}' {
        d + 2
    } else {
        0
    }
}

/// Core of the `Float` pattern: an optional minus sign, one or more
/// digits, a dot, one or more digits.
pub open spec fn float_core(s: Seq<char>, i: int) -> int {
    let sg: int = if i < s.len() && s[i] == '-' {
        1
    } else {
        0
    };
    let d1 = digits_at(s, i + sg);
    let d2 = digits_at(s, i + sg + d1 + 1);
    if d1 >= 1 && i + sg + d1 < s.len() && s[i + sg + d1] == '.' && d2 >= 1 {
        sg + d1 + 1 + d2
    } else {
        0
    }
}

/// Core of the `Integer` pattern: an optional minus sign, one or more
/// digits.
pub open spec fn integer_core(s: Seq<char>, i: int) -> int {
    let sg: int = if i < s.len() && s[i] == '-' {
        1
    } else {
        0
    };
    let d1 = digits_at(s, i + sg);
    if d1 >= 1 {
        sg + d1
    } else {
        0
    }
}

/// Core of the `Stdout` pattern: the keyword `STDOUT`.
pub open spec fn stdout_core(s: Seq<char>, i: int) -> int {
    if i + 6 <= s.len() && s[i] == 'S' && s[i + 1] == 'T' && s[i + 2] == 'D' && s[i + 3] == 'O'
        && s[i + 4] == 'U' && s[i + 5] == 'T' {
        6
    } else {
        0
    }
}

/// Core of the `UString` pattern: a double quote, one or more
/// non-quote characters, a double quote.
pub open spec fn ustring_core(s: Seq<char>, i: int) -> int {
    let q = run_len(s, i + 1, |c: char| c != '"');
    if i < s.len() && s[i] == '"' && q >= 1 && i + 1 + q < s.len() && s[i + 1 + q] == '"' {
        q + 2
    } else {
        0
    }
}

/// Core of the `Plus` pattern: a plus sign.
pub open spec fn plus_core(s: Seq<char>, i: int) -> int {
    if i < s.len() && s[i] == '+' {
        1
    } else {
        0
    }
}

/// Core of the `Minus` pattern: a minus sign.
pub open spec fn minus_core(s: Seq<char>, i: int) -> int {
    if i < s.len() && s[i] == '-' {
        1
    } else {
        0
    }
}

/// Core of the `Variable` pattern: `$`, then one or more name
/// characters.
pub open spec fn variable_core(s: Seq<char>, i: int) -> int {
    let n = run_len(s, i + 1, |c: char| is_name_char(c));
    if i < s.len() && s[i] == '$' && n >= 1 {
        1 + n
    } else {
        0
    }
}

/// Core of the `Letter` pattern: a single quote, one letter, a single
/// quote.
pub open spec fn letter_core(s: Seq<char>, i: int) -> int {
    if i + 2 < s.len() && s[i] == '\'' && is_alpha_char(s[i + 1]) && s[i + 2] == '\'' {
        3
    } else {
        0
    }
}

/// Core of the `Semicolon` pattern: a semicolon.
pub open spec fn semicolon_core(s: Seq<char>, i: int) -> int {
    if i < s.len() && s[i] == ';' {
        1
    } else {
        0
    }
}

/// Core of the `Unknown` pattern: one or more non-whitespace
/// characters.
pub open spec fn unknown_core(s: Seq<char>, i: int) -> int {
    run_len(s, i, |c: char| !is_space_char(c))
}

/// Core length of `kind`'s pattern at position `i`; zero means the
/// pattern does not match there.
pub open spec fn core_len(kind: TokenName, s: Seq<char>, i: int) -> int {
    match kind {
        TokenName::Whitespace => whitespace_core(s, i),
        TokenName::Repeater => repeater_core(s, i),
        TokenName::Float => float_core(s, i),
        TokenName::Integer => integer_core(s, i),
        TokenName::Stdout => stdout_core(s, i),
        TokenName::UString => ustring_core(s, i),
        TokenName::Plus => plus_core(s, i),
        TokenName::Minus => minus_core(s, i),
        TokenName::Variable => variable_core(s, i),
        TokenName::Letter => letter_core(s, i),
        TokenName::Semicolon => semicolon_core(s, i),
        TokenName::Unknown => unknown_core(s, i),
    }
}

/// Whether `kind`'s pattern absorbs trailing whitespace after its
/// core. `Whitespace` is all separator already and `Semicolon` absorbs
/// none, so whitespace after a semicolon surfaces as its own token.
pub open spec fn absorbs_trailing_ws(kind: TokenName) -> bool {
    !(kind == TokenName::Whitespace || kind == TokenName::Semicolon)
}

/// Full length of `kind`'s match at `i`: the core plus any absorbed
/// trailing whitespace. Zero when the pattern does not match.
pub open spec fn match_len(kind: TokenName, s: Seq<char>, i: int) -> int {
    let core = core_len(kind, s, i);
    if core == 0 {
        0
    } else if absorbs_trailing_ws(kind) {
        core + ws_at(s, i + core)
    } else {
        core
    }
}

/// The token kind chosen at position `i`: the first kind in
/// [`precedence_order`] whose pattern matches there.
pub open spec fn chosen_kind(s: Seq<char>, i: int) -> TokenName {
    if whitespace_core(s, i) >= 1 {
        TokenName::Whitespace
    } else if repeater_core(s, i) >= 1 {
        TokenName::Repeater
    } else if float_core(s, i) >= 1 {
        TokenName::Float
    } else if integer_core(s, i) >= 1 {
        TokenName::Integer
    } else if stdout_core(s, i) >= 1 {
        TokenName::Stdout
    } else if ustring_core(s, i) >= 1 {
        TokenName::UString
    } else if plus_core(s, i) >= 1 {
        TokenName::Plus
    } else if minus_core(s, i) >= 1 {
        TokenName::Minus
    } else if variable_core(s, i) >= 1 {
        TokenName::Variable
    } else if letter_core(s, i) >= 1 {
        TokenName::Letter
    } else if semicolon_core(s, i) >= 1 {
        TokenName::Semicolon
    } else {
        TokenName::Unknown
    }
}

/// The unpacked value of the token whose pattern matched at `i`: the
/// payload kinds strip their delimiters and separators, the others
/// keep the raw matched text.
pub open spec fn packed_value(kind: TokenName, s: Seq<char>, i: int) -> Seq<char> {
    let core = core_len(kind, s, i);
    match kind {
        TokenName::Whitespace => s.subrange(i, i + core),
        TokenName::Repeater => s.subrange(i + 1, i + core - 1),
        TokenName::Float => s.subrange(i, i + core),
        TokenName::Integer => s.subrange(i, i + core),
        TokenName::UString => s.subrange(i + 1, i + core - 1),
        TokenName::Variable => s.subrange(i, i + core),
        TokenName::Letter => s.subrange(i + 1, i + 2),
        _ => s.subrange(i, i + match_len(kind, s, i)),
    }
}

/// A pattern's core never reaches past the end of the input.
pub proof fn lemma_core_len_in_range(kind: TokenName, s: Seq<char>, i: int)
    requires
        0 <= i <= s.len(),
    ensures
        0 <= core_len(kind, s, i),
        i + core_len(kind, s, i) <= s.len(),
{
    lemma_run_len_bounds(s, i, |c: char| is_space_char(c));
    lemma_run_len_bounds(s, i, |c: char| !is_space_char(c));
    if i < s.len() {
        lemma_run_len_bounds(s, i + 1, |c: char| is_digit_char(c));
        lemma_run_len_bounds(s, i + 1, |c: char| c != '"');
        lemma_run_len_bounds(s, i + 1, |c: char| is_name_char(c));
    }
    if i + 1 <= s.len() {
        lemma_run_len_bounds(s, i + 1, |c: char| is_digit_char(c));
    }
    if i + 2 <= s.len() {
        lemma_run_len_bounds(s, i + 2, |c: char| is_digit_char(c));
    }
    let sg: int = if i < s.len() && s[i] == '-' {
        1
    } else {
        0
    };
    lemma_run_len_bounds(s, i + sg, |c: char| is_digit_char(c));
    let d1 = digits_at(s, i + sg);
    if 0 <= i + sg + d1 + 1 <= s.len() {
        lemma_run_len_bounds(s, i + sg + d1 + 1, |c: char| is_digit_char(c));
    }
}

/// A full match never reaches past the end of the input.
pub proof fn lemma_match_len_in_range(kind: TokenName, s: Seq<char>, i: int)
    requires
        0 <= i <= s.len(),
    ensures
        0 <= match_len(kind, s, i),
        i + match_len(kind, s, i) <= s.len(),
        core_len(kind, s, i) >= 1 ==> match_len(kind, s, i) >= core_len(kind, s, i),
{
    lemma_core_len_in_range(kind, s, i);
    let core = core_len(kind, s, i);
    if core >= 1 && absorbs_trailing_ws(kind) {
        lemma_run_len_bounds(s, i + core, |c: char| is_space_char(c));
    }
}

/// At any position short of the end, the chosen pattern matches at
/// least one character: scanning always makes progress.
pub proof fn lemma_scan_progress(s: Seq<char>, i: int)
    requires
        0 <= i < s.len(),
    ensures
        core_len(chosen_kind(s, i), s, i) >= 1,
        1 <= match_len(chosen_kind(s, i), s, i),
        i + match_len(chosen_kind(s, i), s, i) <= s.len(),
{
    let kind = chosen_kind(s, i);
    if is_space_char(s[i]) {
        lemma_run_len_bounds(s, i + 1, |c: char| is_space_char(c));
        assert(whitespace_core(s, i) >= 1);
    } else {
        lemma_run_len_bounds(s, i + 1, |c: char| !is_space_char(c));
        assert(unknown_core(s, i) >= 1);
    }
    lemma_match_len_in_range(kind, s, i);
}

/// Core length of `kind`'s pattern at position `i` of `s`.
pub fn core_len_at(kind: TokenName, s: &Vec<char>, i: usize) -> (r: usize)
    requires
        i <= s.len(),
    ensures
        r == core_len(kind, s@, i as int),
        i + r <= s.len(),
{
    proof {
        lemma_core_len_in_range(kind, s@, i as int);
    }
    match kind {
        TokenName::Whitespace => run_space(s, i),
        TokenName::Repeater => {
            if i < s.len() && s[i] == '{' {
                let d = run_digit(s, i + 1);
                if d >= 1 && i + 1 + d < s.len() && s[i + 1 + d] == '}' {
                    d + 2
                } else {
                    0
                }
            } else {
                0
            }
        },
        TokenName::Float => {
            let sg: usize = if i < s.len() && s[i] == '-' {
                1
            } else {
                0
            };
            let d1 = run_digit(s, i + sg);
            if d1 >= 1 && i + sg + d1 < s.len() && s[i + sg + d1] == '.' {
                let d2 = run_digit(s, i + sg + d1 + 1);
                if d2 >= 1 {
                    sg + d1 + 1 + d2
                } else {
                    0
                }
            } else {
                0
            }
        },
        TokenName::Integer => {
            let sg: usize = if i < s.len() && s[i] == '-' {
                1
            } else {
                0
            };
            let d1 = run_digit(s, i + sg);
            if d1 >= 1 {
                sg + d1
            } else {
                0
            }
        },
        TokenName::Stdout => {
            if s.len() - i >= 6 && s[i] == 'S' && s[i + 1] == 'T' && s[i + 2] == 'D' && s[i + 3]
                == 'O' && s[i + 4] == 'U' && s[i + 5] == 'T' {
                6
            } else {
                0
            }
        },
        TokenName::UString => {
            if i < s.len() && s[i] == '"' {
                let q = run_nonquote(s, i + 1);
                if q >= 1 && i + 1 + q < s.len() && s[i + 1 + q] == '"' {
                    q + 2
                } else {
                    0
                }
            } else {
                0
            }
        },
        TokenName::Plus => {
            if i < s.len() && s[i] == '+' {
                1
            } else {
                0
            }
        },
        TokenName::Minus => {
            if i < s.len() && s[i] == '-' {
                1
            } else {
                0
            }
        },
        TokenName::Variable => {
            if i < s.len() && s[i] == '$' {
                let n = run_name(s, i + 1);
                if n >= 1 {
                    1 + n
                } else {
                    0
                }
            } else {
                0
            }
        },
        TokenName::Letter => {
            if s.len() - i >= 3 && s[i] == '\'' && is_alpha(s[i + 1]) && s[i + 2] == '\'' {
                3
            } else {
                0
            }
        },
        TokenName::Semicolon => {
            if i < s.len() && s[i] == ';' {
                1
            } else {
                0
            }
        },
        TokenName::Unknown => run_nonspace(s, i),
    }
}

/// Full match length of `kind`'s pattern at `i`: core plus absorbed
/// trailing whitespace.
pub fn match_len_at(kind: TokenName, s: &Vec<char>, i: usize) -> (r: usize)
    requires
        i <= s.len(),
    ensures
        r == match_len(kind, s@, i as int),
        i + r <= s.len(),
{
    let core = core_len_at(kind, s, i);
    if core == 0 {
        0
    } else {
        let absorbs = match kind {
            TokenName::Whitespace => false,
            TokenName::Semicolon => false,
            _ => true,
        };
        if absorbs {
            core + run_space(s, i + core)
        } else {
            core
        }
    }
}

} // verus!
