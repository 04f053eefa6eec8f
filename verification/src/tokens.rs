//! The token vocabulary shared by the lexer and the parser.

use vstd::prelude::*;

verus! {

/// The kinds of token the lexer can produce. `UString` is a
/// double-quoted string, `Letter` a single-quoted letter, `Repeater` a
/// `{N}` repeat-count block, `Variable` a `$name` reference, `Stdout`
/// the `STDOUT` keyword, and `Unknown` a fragment no pattern matched.
#[derive(Debug, PartialEq, Eq, Structural, Clone, Copy)]
pub enum TokenName {
    Whitespace,
    Float,
    Integer,
    Letter,
    UString,
    Plus,
    Minus,
    Stdout,
    Repeater,
    Variable,
    Unknown,
    Semicolon,
}

/// One token: its kind and its unpacked text (delimiters stripped and
/// trailing separators trimmed for the kinds that carry a payload; the
/// raw matched text for the others, kept for diagnostics).
#[derive(Debug, Clone)]
pub struct Token {
    pub name: TokenName,
    pub value: String,
}

/// The mathematical image of a [`Token`]: its kind and the character
/// sequence of its text.
#[verifier::ext_equal]
pub ghost struct TokenV {
    pub name: TokenName,
    pub value: Seq<char>,
}

impl View for Token {
    type V = TokenV;

    open spec fn view(&self) -> TokenV {
        TokenV { name: self.name, value: self.value@ }
    }
}

/// The order in which token patterns are tried: the first pattern that
/// matches at the current position wins, so this order is the
/// precedence rule of the lexical grammar.
pub open spec fn precedence_order() -> Seq<TokenName> {
    seq![
        TokenName::Whitespace,
        TokenName::Repeater,
        TokenName::Float,
        TokenName::Integer,
        TokenName::Stdout,
        TokenName::UString,
        TokenName::Plus,
        TokenName::Minus,
        TokenName::Variable,
        TokenName::Letter,
        TokenName::Semicolon,
        TokenName::Unknown,
    ]
}

impl Token {
    /// A copy of this token, seen equal by the verifier.
    pub fn duplicate(&self) -> (r: Token)
        ensures
            r@ == self@,
    {
        Token { name: self.name, value: self.value.clone() }
    }

    /// The token kinds in matching order; this order is the precedence
    /// rule of the lexer (reordering it would change which pattern
    /// claims ambiguous text, e.g. `Integer` before `Float` would
    /// misread every float).
    pub fn all() -> (r: Vec<TokenName>)
        ensures
            r@ == precedence_order(),
    {
        let mut v: Vec<TokenName> = Vec::new();
        v.push(TokenName::Whitespace);
        v.push(TokenName::Repeater);
        v.push(TokenName::Float);
        v.push(TokenName::Integer);
        v.push(TokenName::Stdout);
        v.push(TokenName::UString);
        v.push(TokenName::Plus);
        v.push(TokenName::Minus);
        v.push(TokenName::Variable);
        v.push(TokenName::Letter);
        v.push(TokenName::Semicolon);
        v.push(TokenName::Unknown);
        proof {
            assert(v@ =~= precedence_order());
        }
        v
    }
}

} // verus!
