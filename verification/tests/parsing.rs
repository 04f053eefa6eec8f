use ulang::lex::LexAnalyzer;
use ulang::parser::ProgramParser;
use ulang::parser::SyntaxError;
use ulang::parser::VarScope;
use ulang::parser::syntax_analysis;
use ulang::tokens::Token;
use ulang::tokens::TokenName;
use ulang::tree::SyntaxTree;
use ulang::tree::SyntaxTreeKind;

fn tokens_of(input: &str) -> Vec<Token> {
    LexAnalyzer::new()
        .lex_analysis(&String::from(input))
        .expect("input should lex cleanly")
}

fn parse_ok(input: &str) -> SyntaxTree {
    syntax_analysis(&tokens_of(input)).expect("input should parse cleanly")
}

fn parse_err(input: &str) -> Vec<SyntaxError> {
    syntax_analysis(&tokens_of(input)).expect_err("input should fail to parse")
}

#[test]
fn empty_program_parses_to_empty_root() {
    let tree = parse_ok("");
    assert_eq!(tree.kind, SyntaxTreeKind::ProgramStart);
    assert_eq!(tree.children.len(), 0);
    assert!(tree.token.is_none());
}

#[test]
fn whitespace_only_parses_to_empty_root() {
    let tree = parse_ok("   \t ");
    assert_eq!(tree.children.len(), 0);
}

#[test]
fn one_statement_has_source_ops_and_end() {
    let tree = parse_ok("5 + STDOUT ;");
    assert_eq!(tree.children.len(), 1);
    let stmt = &tree.children[0];
    assert_eq!(stmt.kind, SyntaxTreeKind::Statement);
    assert_eq!(stmt.children.len(), 4);
    assert_eq!(stmt.children[0].kind, SyntaxTreeKind::Source);
    assert_eq!(stmt.children[1].kind, SyntaxTreeKind::UnaryOp);
    assert_eq!(stmt.children[2].kind, SyntaxTreeKind::UnaryOp);
    assert_eq!(stmt.children[3].kind, SyntaxTreeKind::EndOfLine);
    let source_token = stmt.children[0].token.as_ref().expect("sources carry a token");
    assert_eq!(source_token.name, TokenName::Integer);
    assert_eq!(source_token.value, "5");
}

#[test]
fn parsed_trees_are_well_formed() {
    let tree = parse_ok("'a' {3} + STDOUT ; \"hi\" $x ; $x - STDOUT ;");
    assert!(tree.is_wf_program());
    assert_eq!(tree.children.len(), 3);
}

#[test]
fn repeater_wraps_exactly_one_operator() {
    let tree = parse_ok("3 {2} {2} + ;");
    let stmt = &tree.children[0];
    let rep = &stmt.children[1];
    assert_eq!(rep.kind, SyntaxTreeKind::RepeatedUnaryOp);
    assert_eq!(rep.token.as_ref().expect("repeat blocks carry their count").value, "2");
    assert_eq!(rep.children.len(), 1);
    let inner = &rep.children[0];
    assert_eq!(inner.kind, SyntaxTreeKind::RepeatedUnaryOp);
    assert_eq!(inner.children.len(), 1);
    assert_eq!(inner.children[0].kind, SyntaxTreeKind::UnaryOp);
}

#[test]
fn undeclared_variable_as_source_is_rejected() {
    let errors = parse_err("$y + STDOUT ;");
    assert_eq!(errors.len(), 1);
    assert!(matches!(
        &errors[0],
        SyntaxError::UndeclaredVariable { var_name } if var_name == "$y"
    ));
}

#[test]
fn binding_a_variable_twice_is_rejected() {
    let errors = parse_err("5 $x ; 6 $x ;");
    assert_eq!(errors.len(), 1);
    assert!(matches!(
        &errors[0],
        SyntaxError::AssignedVariableTwice { var_name } if var_name == "$x"
    ));
}

#[test]
fn missing_semicolon_is_line_incomplete() {
    let errors = parse_err("5 +");
    assert_eq!(errors.len(), 1);
    assert!(matches!(&errors[0], SyntaxError::LineIncomplete));
}

#[test]
fn incomplete_last_statement_leaves_earlier_ones_clean() {
    // The well-formed first statement contributes no error: the one
    // diagnostic is the unterminated tail.
    let errors = parse_err("5 STDOUT ; 6 +");
    assert_eq!(errors.len(), 1);
    assert!(matches!(&errors[0], SyntaxError::LineIncomplete));
}

#[test]
fn resynchronization_across_session_inputs() {
    let mut parser = ProgramParser::new();
    let mut scope = VarScope::new();
    let first = parser.parse(&mut scope, &tokens_of("5 +"));
    let errors = first.expect_err("an unterminated line must fail");
    assert!(matches!(&errors[0], SyntaxError::LineIncomplete));
    let second = parser.parse(&mut scope, &tokens_of("6 STDOUT ;"));
    let tree = second.expect("the next well-formed input parses cleanly");
    assert_eq!(tree.children.len(), 1);
}

#[test]
fn scope_persists_across_session_inputs() {
    let mut parser = ProgramParser::new();
    let mut scope = VarScope::new();
    parser
        .parse(&mut scope, &tokens_of("5 $x ;"))
        .expect("the binding statement parses cleanly");
    let errors = parser
        .parse(&mut scope, &tokens_of("6 $x ;"))
        .expect_err("rebinding in a later input must fail");
    assert!(matches!(
        &errors[0],
        SyntaxError::AssignedVariableTwice { var_name } if var_name == "$x"
    ));
    parser
        .parse(&mut scope, &tokens_of("$x STDOUT ;"))
        .expect("reading the bound variable parses cleanly");
}

#[test]
fn statement_cannot_start_with_an_operator() {
    let errors = parse_err("+ 5 ;");
    assert!(matches!(&errors[0], SyntaxError::UnexpectedToken { .. }));
}

#[test]
fn literal_inside_operator_chain_is_unexpected() {
    let errors = parse_err("5 'a' ;");
    assert_eq!(errors.len(), 1);
    assert!(matches!(
        &errors[0],
        SyntaxError::UnexpectedToken { unexpected, .. } if unexpected.name == TokenName::Letter
    ));
}

#[test]
fn repeater_needs_an_operator_after_it() {
    let errors = parse_err("5 {3} 7 ;");
    assert!(matches!(
        &errors[0],
        SyntaxError::UnexpectedToken { unexpected, .. } if unexpected.name == TokenName::Integer
    ));
}

#[test]
fn errors_accumulate_across_statements() {
    let errors = parse_err("+ ; $y ;");
    assert_eq!(errors.len(), 2);
    assert!(matches!(&errors[0], SyntaxError::UnexpectedToken { .. }));
    assert!(matches!(&errors[1], SyntaxError::UndeclaredVariable { .. }));
}

#[test]
fn trees_can_be_built_by_hand() {
    let mut root = SyntaxTree::root();
    assert_eq!(root.kind, SyntaxTreeKind::ProgramStart);
    let mut stmt = SyntaxTree::new(SyntaxTreeKind::Statement, None);
    stmt.add_child(SyntaxTree::new(
        SyntaxTreeKind::Source,
        Some(Token { name: TokenName::Integer, value: String::from("1") }),
    ));
    stmt.add_child(SyntaxTree::new(SyntaxTreeKind::EndOfLine, None));
    root.add_child(stmt);
    assert!(root.is_wf_program());
    assert_eq!(root.children.len(), 1);
}
