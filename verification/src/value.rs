//! The value algebra the interpreter computes over.
//!
//! A value is a 64-bit integer, a float (kept exactly as an integer
//! numerator over a power of ten), a single letter, or a string. Every
//! operator produces a new value: increment and decrement are exact
//! arithmetic on the numbers and alphabet rotation on letters and
//! strings, where whitespace passes through unchanged and any other
//! unrotatable character is refused.

use vstd::prelude::*;

use crate::chars::char_add;
use crate::chars::char_shift;
use crate::chars::char_sub;
use crate::chars::is_alpha;
use crate::chars::is_alpha_char;
use crate::chars::is_space;
use crate::chars::is_space_char;
use crate::numeral::float_to_string;
use crate::numeral::float_to_text;
use crate::numeral::int_to_string;
use crate::numeral::int_to_text;
use crate::numeral::pow10;
use crate::numeral::pow10_u128;
use crate::strutil::push_char;
use crate::strutil::string_to_chars;

verus! {

/// A runtime value: the source of a statement and everything the
/// operator chain makes of it.
#[derive(Debug)]
pub enum UValue {
    Integer(i64),
    Float { num: i128, scale: u32 },
    Letter(char),
    UString(String),
}

/// The mathematical image of a [`UValue`].
pub ghost enum ValV {
    Integer(int),
    Float { num: int, scale: int },
    Letter(char),
    Str(Seq<char>),
}

impl View for UValue {
    type V = ValV;

    open spec fn view(&self) -> ValV {
        match self {
            UValue::Integer(n) => ValV::Integer(*n as int),
            UValue::Float { num, scale } => ValV::Float { num: *num as int, scale: *scale as int },
            UValue::Letter(c) => ValV::Letter(*c),
            UValue::UString(s) => ValV::Str(s@),
        }
    }
}

/// The bounds a value respects: integers fit 64 bits, and a float's
/// numerator and scale stay where exact decimal arithmetic and
/// rendering are defined. Letters and strings carry anything.
pub open spec fn wf_value(v: ValV) -> bool {
    match v {
        ValV::Integer(n) => i64::MIN <= n <= i64::MAX,
        ValV::Float { num, scale } => -i128::MAX <= num <= i128::MAX && 0 <= scale <= 38,
        ValV::Letter(_) => true,
        ValV::Str(_) => true,
    }
}

/// A runtime fault: a defect of an earlier stage or a machine limit,
/// not a user-facing condition.
#[derive(Debug)]
pub enum RunError {
    MalformedLiteral { text: String },
    UnboundVariable { var_name: String },
    MalformedTree,
    Overflow,
    UnsupportedChar,
}

/// The mathematical image of a [`RunError`].
pub ghost enum RunErrV {
    MalformedLiteral { text: Seq<char> },
    UnboundVariable { var_name: Seq<char> },
    MalformedTree,
    Overflow,
    UnsupportedChar,
}

impl View for RunError {
    type V = RunErrV;

    open spec fn view(&self) -> RunErrV {
        match self {
            RunError::MalformedLiteral { text } => RunErrV::MalformedLiteral { text: text@ },
            RunError::UnboundVariable { var_name } => RunErrV::UnboundVariable {
                var_name: var_name@,
            },
            RunError::MalformedTree => RunErrV::MalformedTree,
            RunError::Overflow => RunErrV::Overflow,
            RunError::UnsupportedChar => RunErrV::UnsupportedChar,
        }
    }
}

/// Whether every character of `s` can be rotated: whitespace or a
/// letter.
pub open spec fn all_rotatable(s: Seq<char>) -> bool {
    forall|k: int| 0 <= k < s.len() ==> is_space_char(#[trigger] s[k]) || is_alpha_char(s[k])
}

/// `s` with every character rotated by `k`, whitespace unchanged.
pub open spec fn rot_str(s: Seq<char>, k: int) -> Seq<char> {
    s.map_values(|c: char| char_shift(c, k))
}

/// What shifting a value one step up (`+`) or down (`-`) yields:
/// integers and floats move by one (exactly), letters and strings
/// rotate through the alphabet; a number that would leave its bounds
/// overflows, and an unrotatable character is refused.
pub open spec fn spec_shift(v: ValV, up: bool) -> Result<ValV, RunErrV> {
    let k: int = if up {
        1
    } else {
        -1
    };
    match v {
        ValV::Integer(n) => {
            if i64::MIN <= n + k <= i64::MAX {
                Result::Ok(ValV::Integer(n + k))
            } else {
                Result::Err(RunErrV::Overflow)
            }
        },
        ValV::Float { num, scale } => {
            let num2 = num + k * pow10(scale);
            if -i128::MAX <= num2 <= i128::MAX {
                Result::Ok(ValV::Float { num: num2, scale })
            } else {
                Result::Err(RunErrV::Overflow)
            }
        },
        ValV::Letter(c) => {
            if is_space_char(c) || is_alpha_char(c) {
                Result::Ok(ValV::Letter(char_shift(c, k)))
            } else {
                Result::Err(RunErrV::UnsupportedChar)
            }
        },
        ValV::Str(s) => {
            if all_rotatable(s) {
                Result::Ok(ValV::Str(rot_str(s, k)))
            } else {
                Result::Err(RunErrV::UnsupportedChar)
            }
        },
    }
}

/// A successful shift preserves the value bounds.
pub proof fn lemma_shift_wf(v: ValV, up: bool)
    requires
        wf_value(v),
    ensures
        spec_shift(v, up) matches Result::Ok(v2) ==> wf_value(v2),
{
}

/// The textual rendering of a value: integers and floats in decimal,
/// letters and strings verbatim.
pub open spec fn spec_to_text(v: ValV) -> Seq<char> {
    match v {
        ValV::Integer(n) => int_to_text(n),
        ValV::Float { num, scale } => float_to_text(num, scale),
        ValV::Letter(c) => seq![c],
        ValV::Str(s) => s,
    }
}

impl UValue {
    /// A copy of this value, seen equal by the verifier.
    pub fn duplicate(&self) -> (r: UValue)
        ensures
            r@ == self@,
    {
        match self {
            UValue::Integer(n) => UValue::Integer(*n),
            UValue::Float { num, scale } => UValue::Float { num: *num, scale: *scale },
            UValue::Letter(c) => UValue::Letter(*c),
            UValue::UString(s) => UValue::UString(s.clone()),
        }
    }

    /// This value shifted one step up (`+`) or down (`-`).
    pub fn shifted(&self, up: bool) -> (r: Result<UValue, RunError>)
        requires
            wf_value(self@),
        ensures
            match r {
                Result::Ok(v) => spec_shift(self@, up) == Result::<ValV, RunErrV>::Ok(v@)
                    && wf_value(v@),
                Result::Err(e) => spec_shift(self@, up) == Result::<ValV, RunErrV>::Err(e@),
            },
    {
        proof {
            lemma_shift_wf(self@, up);
        }
        match self {
            UValue::Integer(n) => {
                if up {
                    if *n == i64::MAX {
                        Result::Err(RunError::Overflow)
                    } else {
                        let v = UValue::Integer(*n + 1);
                        proof {
                            assert(spec_shift(self@, up) == Result::<ValV, RunErrV>::Ok(v@));
                        }
                        Result::Ok(v)
                    }
                } else {
                    if *n == i64::MIN {
                        Result::Err(RunError::Overflow)
                    } else {
                        let v = UValue::Integer(*n - 1);
                        proof {
                            assert(spec_shift(self@, up) == Result::<ValV, RunErrV>::Ok(v@));
                        }
                        Result::Ok(v)
                    }
                }
            },
            UValue::Float { num, scale } => {
                proof {
                    crate::numeral::lemma_pow10_fits(*scale as int);
                    crate::numeral::lemma_pow10_le(0, *scale as int);
                }
                let p = pow10_u128(*scale) as i128;
                if up {
                    if *num > i128::MAX - p {
                        Result::Err(RunError::Overflow)
                    } else {
                        let v = UValue::Float { num: *num + p, scale: *scale };
                        proof {
                            assert(spec_shift(self@, up) == Result::<ValV, RunErrV>::Ok(v@));
                        }
                        Result::Ok(v)
                    }
                } else {
                    if *num < -i128::MAX + p {
                        Result::Err(RunError::Overflow)
                    } else {
                        let v = UValue::Float { num: *num - p, scale: *scale };
                        proof {
                            assert((-1) * pow10(*scale as int) == -pow10(*scale as int))
                                by (nonlinear_arith);
                            assert(spec_shift(self@, up) == Result::<ValV, RunErrV>::Ok(v@));
                        }
                        Result::Ok(v)
                    }
                }
            },
            UValue::Letter(c) => {
                if is_space(*c) || is_alpha(*c) {
                    let r = if up {
                        char_add(c, 1)
                    } else {
                        char_sub(c, 1)
                    };
                    proof {
                        let k: int = if up {
                            1
                        } else {
                            -1
                        };
                        assert(r == char_shift(*c, k));
                        assert(spec_shift(self@, up) == Result::<ValV, RunErrV>::Ok(
                            ValV::Letter(char_shift(*c, k)),
                        ));
                    }
                    Result::Ok(UValue::Letter(r))
                } else {
                    Result::Err(RunError::UnsupportedChar)
                }
            },
            UValue::UString(s) => {
                let cs = string_to_chars(s.as_str());
                let mut rotated = String::new();
                let mut k: usize = 0;
                let ghost ki: int = if up {
                    1
                } else {
                    -1
                };
                while k < cs.len()
                    invariant
                        k <= cs.len(),
                        cs@ == s@,
                        self@ == ValV::Str(s@),
                        ki == (if up {
                            1int
                        } else {
                            -1int
                        }),
                        forall|j: int|
                            0 <= j < k ==> is_space_char(#[trigger] cs@[j]) || is_alpha_char(
                                cs@[j],
                            ),
                        rotated@ =~= cs@.take(k as int).map_values(|c: char| char_shift(c, ki)),
                    decreases cs.len() - k,
                {
                    let c = cs[k];
                    if !(is_space(c) || is_alpha(c)) {
                        proof {
                            assert(!(is_space_char(s@[k as int]) || is_alpha_char(s@[k as int])));
                            assert(!all_rotatable(s@));
                            assert(self@ == ValV::Str(s@));
                            assert(spec_shift(self@, up) == Result::<ValV, RunErrV>::Err(
                                RunErrV::UnsupportedChar,
                            ));
                        }
                        return Result::Err(RunError::UnsupportedChar);
                    }
                    let r = if up {
                        char_add(&c, 1)
                    } else {
                        char_sub(&c, 1)
                    };
                    push_char(&mut rotated, r);
                    k = k + 1;
                    proof {
                        assert(cs@.take(k as int).map_values(|c: char| char_shift(c, ki))
                            =~= cs@.take(k as int - 1).map_values(|c: char| char_shift(c, ki)).push(
                            char_shift(cs@[k - 1], ki),
                        ));
                    }
                }
                proof {
                    assert(cs@.take(k as int) =~= s@);
                    assert(rot_str(s@, ki) =~= cs@.take(k as int).map_values(
                        |c: char| char_shift(c, ki),
                    ));
                    assert(all_rotatable(s@));
                    assert(spec_shift(self@, up) == Result::<ValV, RunErrV>::Ok(
                        ValV::Str(rot_str(s@, ki)),
                    ));
                }
                Result::Ok(UValue::UString(rotated))
            },
        }
    }

    /// The textual rendering of this value.
    pub fn to_text(&self) -> (r: String)
        requires
            wf_value(self@),
        ensures
            r@ == spec_to_text(self@),
    {
        match self {
            UValue::Integer(n) => int_to_string(*n),
            UValue::Float { num, scale } => float_to_string(*num, *scale),
            UValue::Letter(c) => crate::strutil::char_to_string(*c),
            UValue::UString(s) => s.clone(),
        }
    }
}

} // verus!
