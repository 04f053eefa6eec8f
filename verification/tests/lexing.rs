use ulang::lex::LexAnalyzer;
use ulang::lex::LexError;
use ulang::tokens::Token;
use ulang::tokens::TokenName;

fn lex_ok(input: &str) -> Vec<Token> {
    LexAnalyzer::new()
        .lex_analysis(&String::from(input))
        .expect("input should lex cleanly")
}

fn kinds(tokens: &[Token]) -> Vec<TokenName> {
    tokens.iter().map(|t| t.name).collect()
}

#[test]
fn empty_input_gives_no_tokens() {
    let tokens = lex_ok("");
    assert_eq!(tokens.len(), 0);
}

#[test]
fn whitespace_only_gives_one_whitespace_token() {
    let tokens = lex_ok("  \t\n ");
    assert_eq!(tokens.len(), 1);
    assert_eq!(tokens[0].name, TokenName::Whitespace);
    assert_eq!(tokens[0].value, "  \t\n ");
}

#[test]
fn integer_token_trims_trailing_whitespace() {
    let tokens = lex_ok("42  ");
    assert_eq!(kinds(&tokens), vec![TokenName::Integer]);
    assert_eq!(tokens[0].value, "42");
}

#[test]
fn negative_integer_is_one_token() {
    let tokens = lex_ok("-5");
    assert_eq!(kinds(&tokens), vec![TokenName::Integer]);
    assert_eq!(tokens[0].value, "-5");
}

#[test]
fn minus_then_number_when_separated() {
    let tokens = lex_ok("- 5");
    assert_eq!(kinds(&tokens), vec![TokenName::Minus, TokenName::Integer]);
    assert_eq!(tokens[0].value, "- ");
    assert_eq!(tokens[1].value, "5");
}

#[test]
fn float_wins_over_integer() {
    let tokens = lex_ok("1.5");
    assert_eq!(kinds(&tokens), vec![TokenName::Float]);
    assert_eq!(tokens[0].value, "1.5");
}

#[test]
fn negative_float_is_one_token() {
    let tokens = lex_ok("-0.25 ");
    assert_eq!(kinds(&tokens), vec![TokenName::Float]);
    assert_eq!(tokens[0].value, "-0.25");
}

#[test]
fn repeater_unpacks_braces() {
    let tokens = lex_ok("{12}");
    assert_eq!(kinds(&tokens), vec![TokenName::Repeater]);
    assert_eq!(tokens[0].value, "12");
}

#[test]
fn letter_unpacks_quotes() {
    let tokens = lex_ok("'x'");
    assert_eq!(kinds(&tokens), vec![TokenName::Letter]);
    assert_eq!(tokens[0].value, "x");
}

#[test]
fn string_unpacks_quotes_and_keeps_inner_spaces() {
    let tokens = lex_ok("\" a b \"");
    assert_eq!(kinds(&tokens), vec![TokenName::UString]);
    assert_eq!(tokens[0].value, " a b ");
}

#[test]
fn variable_keeps_dollar_sign() {
    let tokens = lex_ok("$foo_bar");
    assert_eq!(kinds(&tokens), vec![TokenName::Variable]);
    assert_eq!(tokens[0].value, "$foo_bar");
}

#[test]
fn stdout_keyword_and_semicolon() {
    let tokens = lex_ok("STDOUT;");
    assert_eq!(kinds(&tokens), vec![TokenName::Stdout, TokenName::Semicolon]);
}

#[test]
fn whitespace_after_semicolon_is_its_own_token() {
    let tokens = lex_ok("; ");
    assert_eq!(kinds(&tokens), vec![TokenName::Semicolon, TokenName::Whitespace]);
}

#[test]
fn full_statement_token_sequence() {
    let tokens = lex_ok("5 {3} + STDOUT ;");
    assert_eq!(
        kinds(&tokens),
        vec![
            TokenName::Integer,
            TokenName::Repeater,
            TokenName::Plus,
            TokenName::Stdout,
            TokenName::Semicolon,
        ]
    );
}

#[test]
fn unknown_fragment_is_an_error() {
    let result = LexAnalyzer::new().lex_analysis(&String::from("@"));
    let errors = result.expect_err("an unrecognised fragment must fail lexing");
    assert_eq!(errors.len(), 1);
    let LexError::UnknownToken { value } = &errors[0];
    assert_eq!(value, "@");
}

#[test]
fn lexing_collects_every_unknown_fragment() {
    let result = LexAnalyzer::new().lex_analysis(&String::from("@ 5 # 6"));
    let errors = result.expect_err("unknown fragments must fail lexing");
    assert_eq!(errors.len(), 2);
    let LexError::UnknownToken { value: v0 } = &errors[0];
    let LexError::UnknownToken { value: v1 } = &errors[1];
    assert_eq!(v0, "@ ");
    assert_eq!(v1, "# ");
}

#[test]
fn requoting_a_string_value_reproduces_it() {
    let tokens = lex_ok("\"a c\"");
    assert_eq!(tokens[0].value, "a c");
    let requoted = format!("\"{}\"", tokens[0].value);
    let again = lex_ok(&requoted);
    assert_eq!(again.len(), 1);
    assert_eq!(again[0].name, TokenName::UString);
    assert_eq!(again[0].value, tokens[0].value);
}

#[test]
fn requoting_a_letter_value_reproduces_it() {
    let tokens = lex_ok("'q'");
    assert_eq!(tokens[0].value, "q");
    let requoted = format!("'{}'", tokens[0].value);
    let again = lex_ok(&requoted);
    assert_eq!(again.len(), 1);
    assert_eq!(again[0].name, TokenName::Letter);
    assert_eq!(again[0].value, tokens[0].value);
}

#[test]
fn token_kind_order_is_the_precedence_rule() {
    let order = Token::all();
    assert_eq!(
        order,
        vec![
            TokenName::Whitespace,
            TokenName::Repeater,
            TokenName::Float,
            TokenName::Integer,
            TokenName::Stdout,
            TokenName::UString,
            TokenName::Plus,
            TokenName::Minus,
            TokenName::Variable,
            TokenName::Letter,
            TokenName::Semicolon,
            TokenName::Unknown,
        ]
    );
}

#[test]
fn stdout_prefix_matches_even_when_glued() {
    let tokens = LexAnalyzer::new().lex_analysis(&String::from("STDOUTX"));
    let errors = tokens.expect_err("the glued tail matches no pattern");
    assert_eq!(errors.len(), 1);
    let LexError::UnknownToken { value } = &errors[0];
    assert_eq!(value, "X");
}
