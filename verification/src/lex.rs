//! Lexical analysis: from raw text to a token sequence.
//!
//! The input is scanned left to right. At each position the token
//! patterns are tried in precedence order and the first match wins,
//! consuming its text; this repeats until the input is exhausted.
//! Fragments no pattern recognises become `Unknown` tokens; scanning
//! does not stop at them, so one pass reports every unknown fragment.
//! The result is `Ok` exactly when no `Unknown` token was produced.

use vstd::prelude::*;

use crate::matcher::chosen_kind;
use crate::matcher::core_len_at;
use crate::matcher::lemma_scan_progress;
use crate::matcher::match_len;
use crate::matcher::match_len_at;
use crate::matcher::packed_value;
use crate::strutil::chars_to_string;
use crate::strutil::string_to_chars;
use crate::tokens::Token;
use crate::tokens::TokenName;
use crate::tokens::TokenV;

verus! {

/// A lexical error: a fragment of input that no token pattern
/// recognised.
#[derive(Debug, Clone)]
pub enum LexError {
    UnknownToken { value: String },
}

impl View for LexError {
    type V = Seq<char>;

    open spec fn view(&self) -> Seq<char> {
        match self {
            LexError::UnknownToken { value } => value@,
        }
    }
}

/// The token produced at position `i`: the first matching pattern's
/// kind, with its unpacked text.
pub open spec fn token_at(s: Seq<char>, i: int) -> TokenV {
    TokenV { name: chosen_kind(s, i), value: packed_value(chosen_kind(s, i), s, i) }
}

/// How far the match at position `i` reaches (core plus absorbed
/// separator): where the next token starts.
pub open spec fn step_len(s: Seq<char>, i: int) -> int {
    match_len(chosen_kind(s, i), s, i)
}

/// The token sequence of `s` from position `i` on: the token at `i`,
/// then the tokens of the rest.
pub open spec fn spec_tokens(s: Seq<char>, i: int) -> Seq<TokenV>
    decreases s.len() - i,
{
    if i < 0 || i >= s.len() {
        Seq::empty()
    } else {
        let n = step_len(s, i);
        let j = if n >= 1 && i + n <= s.len() {
            i + n
        } else {
            i + 1
        };
        seq![token_at(s, i)] + spec_tokens(s, j)
    }
}

/// The token sequence of the whole of `s`.
pub open spec fn spec_lex(s: Seq<char>) -> Seq<TokenV> {
    spec_tokens(s, 0)
}

/// Inside the input, the token sequence steps by exactly the match
/// length of the chosen pattern.
pub proof fn lemma_spec_tokens_step(s: Seq<char>, i: int)
    requires
        0 <= i < s.len(),
    ensures
        spec_tokens(s, i) == seq![token_at(s, i)] + spec_tokens(s, i + step_len(s, i)),
{
    lemma_scan_progress(s, i);
}

/// The views of a vector of tokens.
pub open spec fn tokens_view(ts: Seq<Token>) -> Seq<TokenV> {
    ts.map_values(|t: Token| t@)
}

/// The texts of the `Unknown` tokens among `toks`, in order.
pub open spec fn unknown_texts(toks: Seq<TokenV>) -> Seq<Seq<char>>
    decreases toks.len(),
{
    if toks.len() == 0 {
        Seq::empty()
    } else {
        unknown_texts(toks.drop_last()) + (if toks.last().name == TokenName::Unknown {
            seq![toks.last().value]
        } else {
            Seq::empty()
        })
    }
}

/// The views of a vector of lexical errors.
pub open spec fn lex_errors_view(es: Seq<LexError>) -> Seq<Seq<char>> {
    es.map_values(|e: LexError| e@)
}

/// Scans one token at position `i`.
fn scan_token(s: &Vec<char>, i: usize) -> (r: (Token, usize))
    requires
        i < s.len(),
    ensures
        r.0@ == token_at(s@, i as int),
        r.1 == step_len(s@, i as int),
        1 <= r.1,
        i + r.1 <= s.len(),
{
    proof {
        lemma_scan_progress(s@, i as int);
    }
    let kind = if core_len_at(TokenName::Whitespace, s, i) >= 1 {
        TokenName::Whitespace
    } else if core_len_at(TokenName::Repeater, s, i) >= 1 {
        TokenName::Repeater
    } else if core_len_at(TokenName::Float, s, i) >= 1 {
        TokenName::Float
    } else if core_len_at(TokenName::Integer, s, i) >= 1 {
        TokenName::Integer
    } else if core_len_at(TokenName::Stdout, s, i) >= 1 {
        TokenName::Stdout
    } else if core_len_at(TokenName::UString, s, i) >= 1 {
        TokenName::UString
    } else if core_len_at(TokenName::Plus, s, i) >= 1 {
        TokenName::Plus
    } else if core_len_at(TokenName::Minus, s, i) >= 1 {
        TokenName::Minus
    } else if core_len_at(TokenName::Variable, s, i) >= 1 {
        TokenName::Variable
    } else if core_len_at(TokenName::Letter, s, i) >= 1 {
        TokenName::Letter
    } else if core_len_at(TokenName::Semicolon, s, i) >= 1 {
        TokenName::Semicolon
    } else {
        TokenName::Unknown
    };
    proof {
        assert(kind == chosen_kind(s@, i as int));
    }
    let core = core_len_at(kind, s, i);
    let mlen = match_len_at(kind, s, i);
    let value = match kind {
        TokenName::Whitespace => chars_to_string(s, i, i + core),
        TokenName::Float => chars_to_string(s, i, i + core),
        TokenName::Integer => chars_to_string(s, i, i + core),
        TokenName::Variable => chars_to_string(s, i, i + core),
        TokenName::Repeater => chars_to_string(s, i + 1, i + core - 1),
        TokenName::UString => chars_to_string(s, i + 1, i + core - 1),
        TokenName::Letter => chars_to_string(s, i + 1, i + 2),
        _ => chars_to_string(s, i, i + mlen),
    };
    (Token { name: kind, value }, mlen)
}

/// The lexer. It holds no state: lexing is a pure function of the
/// input text.
pub struct LexAnalyzer {}

impl LexAnalyzer {
    pub fn new() -> (r: Self) {
        LexAnalyzer {  }
    }

    /// Scans the whole input into tokens, `Unknown` fragments
    /// included.
    pub fn collect_tokens(&self, input: &String) -> (tokens: Vec<Token>)
        ensures
            tokens_view(tokens@) == spec_lex(input@),
    {
        let cs = string_to_chars(input.as_str());
        let mut tokens: Vec<Token> = Vec::new();
        let mut pos: usize = 0;
        while pos < cs.len()
            invariant
                pos <= cs.len(),
                cs@ == input@,
                spec_lex(input@) == tokens_view(tokens@) + spec_tokens(cs@, pos as int),
            decreases cs.len() - pos,
        {
            proof {
                lemma_spec_tokens_step(cs@, pos as int);
            }
            let (token, mlen) = scan_token(&cs, pos);
            tokens.push(token);
            pos = pos + mlen;
            proof {
                assert(tokens_view(tokens@) == tokens_view(tokens@.drop_last()) + seq![
                    tokens@.last()@,
                ]) by {
                    assert(tokens_view(tokens@) =~= tokens_view(tokens@.drop_last()) + seq![
                        tokens@.last()@,
                    ]);
                }
                assert(spec_lex(input@) =~= tokens_view(tokens@) + spec_tokens(cs@, pos as int));
            }
        }
        proof {
            assert(spec_lex(input@) =~= tokens_view(tokens@));
        }
        tokens
    }

    /// Lexical analysis: the token sequence of `input` when every
    /// fragment was recognised, otherwise one error per `Unknown`
    /// fragment, in order of appearance.
    pub fn lex_analysis(&self, input: &String) -> (r: Result<Vec<Token>, Vec<LexError>>)
        ensures
            match r {
                Ok(tokens) => unknown_texts(spec_lex(input@)).len() == 0 && tokens_view(tokens@)
                    == spec_lex(input@),
                Err(errors) => unknown_texts(spec_lex(input@)).len() > 0 && lex_errors_view(
                    errors@,
                ) == unknown_texts(spec_lex(input@)),
            },
    {
        let tokens = self.collect_tokens(input);
        let ghost toks = spec_lex(input@);
        let mut errors: Vec<LexError> = Vec::new();
        let mut i: usize = 0;
        while i < tokens.len()
            invariant
                i <= tokens.len(),
                tokens_view(tokens@) == toks,
                lex_errors_view(errors@) == unknown_texts(toks.take(i as int)),
            decreases tokens.len() - i,
        {
            let ghost prefix = toks.take(i as int);
            if matches!(tokens[i].name, TokenName::Unknown) {
                errors.push(LexError::UnknownToken { value: tokens[i].value.clone() });
            }
            i = i + 1;
            proof {
                let next = toks.take(i as int);
                assert(next.drop_last() =~= prefix);
                assert(next.last() == toks[i - 1]);
                assert(toks[i - 1] == tokens@[i - 1]@);
                assert(lex_errors_view(errors@) =~= unknown_texts(next));
            }
        }
        proof {
            assert(toks.take(tokens@.len() as int) =~= toks);
        }
        if errors.len() == 0 {
            proof {
                assert(unknown_texts(toks).len() == 0);
            }
            Ok(tokens)
        } else {
            Err(errors)
        }
    }
}

} // verus!
