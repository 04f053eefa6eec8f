use ulang::chars::char_add;
use ulang::chars::char_sub;
use ulang::lex::LexAnalyzer;
use ulang::tokens::TokenName;
use ulang::tree::SyntaxTree;
use ulang::tree::SyntaxTreeKind;
use ulang::interpret::UInterpreter;
use ulang::tokens::Token;
use ulang::value::RunError;
use ulang::value::UValue;

#[test]
fn char_add_rotates_within_the_alphabet() {
    assert_eq!(char_add(&'a', 1), 'b');
    assert_eq!(char_add(&'z', 1), 'a');
    assert_eq!(char_add(&'a', 3), 'd');
    assert_eq!(char_add(&'Y', 2), 'A');
    assert_eq!(char_add(&'m', 26), 'm');
}

#[test]
fn char_sub_rotates_backward() {
    assert_eq!(char_sub(&'b', 1), 'a');
    assert_eq!(char_sub(&'a', 1), 'z');
    assert_eq!(char_sub(&'A', 1), 'Z');
    assert_eq!(char_sub(&'d', 3), 'a');
    assert_eq!(char_sub(&'m', 26), 'm');
}

#[test]
fn char_rotation_passes_whitespace_through() {
    assert_eq!(char_add(&' ', 1), ' ');
    assert_eq!(char_sub(&'\t', 1), '\t');
}

#[test]
fn shifting_values_up_and_down() {
    let up = UValue::Integer(41).shifted(true).expect("within bounds");
    assert!(matches!(up, UValue::Integer(42)));
    let down = UValue::Letter('a').shifted(false).expect("letters rotate");
    assert!(matches!(down, UValue::Letter('z')));
}

#[test]
fn shifting_at_the_integer_bounds_overflows() {
    let up = UValue::Integer(i64::MAX).shifted(true);
    assert!(matches!(up, Err(RunError::Overflow)));
    let down = UValue::Integer(i64::MIN).shifted(false);
    assert!(matches!(down, Err(RunError::Overflow)));
}

#[test]
fn value_text_renders_decimals_and_strings() {
    assert_eq!(UValue::Integer(-17).to_text(), "-17");
    assert_eq!(UValue::Integer(0).to_text(), "0");
    assert_eq!(UValue::Float { num: 150, scale: 2 }.to_text(), "1.50");
    assert_eq!(UValue::Float { num: -5, scale: 1 }.to_text(), "-0.5");
    assert_eq!(UValue::Letter('q').to_text(), "q");
    assert_eq!(UValue::UString(String::from("a b")).to_text(), "a b");
}

#[test]
fn reading_an_unbound_variable_at_run_time_is_a_fault() {
    // The parser normally rules this out; a hand-built tree reaches the
    // interpreter's own check.
    let mut root = SyntaxTree::root();
    let mut stmt = SyntaxTree::new(SyntaxTreeKind::Statement, None);
    stmt.add_child(SyntaxTree::new(
        SyntaxTreeKind::Source,
        Some(Token { name: TokenName::Variable, value: String::from("$ghost_name") }),
    ));
    stmt.add_child(SyntaxTree::new(SyntaxTreeKind::EndOfLine, None));
    root.add_child(stmt);
    assert!(root.is_wf_program());
    let mut interpreter = UInterpreter::new();
    let (output, error) = interpreter.execute(&root);
    assert_eq!(output, Vec::<String>::new());
    assert!(matches!(error, Some(RunError::UnboundVariable { .. })));
}

#[test]
fn exec_statement_runs_one_statement() {
    let tokens = LexAnalyzer::new()
        .lex_analysis(&String::from("2 {2} + STDOUT ;"))
        .expect("lexes cleanly");
    let tree = ulang::parser::syntax_analysis(&tokens).expect("parses cleanly");
    let mut interpreter = UInterpreter::new();
    let (output, error) = interpreter.exec_statement(&tree.children[0]);
    assert!(error.is_none());
    assert_eq!(output, vec!["4"]);
}

#[test]
fn oversized_repeat_count_is_malformed() {
    let tokens = LexAnalyzer::new()
        .lex_analysis(&String::from("1 {99999999999} + ;"))
        .expect("lexes cleanly");
    let tree = ulang::parser::syntax_analysis(&tokens).expect("parses cleanly");
    let mut interpreter = UInterpreter::new();
    let (_, error) = interpreter.execute(&tree);
    assert!(matches!(error, Some(RunError::MalformedLiteral { .. })));
}

#[test]
fn interpreter_table_persists_across_programs() {
    let tokens = LexAnalyzer::new()
        .lex_analysis(&String::from("7 $seven ;"))
        .expect("lexes cleanly");
    let tree = ulang::parser::syntax_analysis(&tokens).expect("parses cleanly");
    let mut interpreter = UInterpreter::new();
    let (_, error) = interpreter.execute(&tree);
    assert!(error.is_none());

    let tokens2 = LexAnalyzer::new()
        .lex_analysis(&String::from("$seven STDOUT ;"))
        .expect("lexes cleanly");
    let mut scope = ulang::parser::VarScope::new();
    scope.insert(String::from("$seven"));
    let mut parser = ulang::parser::ProgramParser::new();
    let tree2 = parser
        .parse(&mut scope, &tokens2)
        .expect("parses cleanly with the name in scope");
    let (output, error2) = interpreter.execute(&tree2);
    assert!(error2.is_none());
    assert_eq!(output, vec!["7"]);
}
