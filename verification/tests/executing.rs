use ulang::session::EvalError;
use ulang::session::Session;
use ulang::session::run_program;
use ulang::value::RunError;

fn run_ok(input: &str) -> Vec<String> {
    let (output, error) = run_program(&String::from(input));
    assert!(error.is_none(), "the program should run cleanly: {:?}", error);
    output
}

fn run_fault(input: &str) -> (Vec<String>, RunError) {
    let (output, error) = run_program(&String::from(input));
    match error {
        Some(EvalError::RunFailed { error }) => (output, error),
        other => panic!("expected a runtime fault, got {:?}", other),
    }
}

#[test]
fn whitespace_only_program_outputs_nothing() {
    assert_eq!(run_ok("  \t\n "), Vec::<String>::new());
}

#[test]
fn statement_without_print_outputs_nothing() {
    assert_eq!(run_ok("5 + + ;"), Vec::<String>::new());
}

#[test]
fn integer_plus_chain_outputs_the_sum() {
    assert_eq!(run_ok("5 + + STDOUT ;"), vec!["7"]);
}

#[test]
fn integer_minus_steps_down() {
    assert_eq!(run_ok("0 - STDOUT ;"), vec!["-1"]);
}

#[test]
fn negative_integer_literal_works() {
    assert_eq!(run_ok("-3 + STDOUT ;"), vec!["-2"]);
}

#[test]
fn stdout_passes_the_value_through() {
    assert_eq!(run_ok("1 STDOUT + STDOUT ;"), vec!["1", "2"]);
}

#[test]
fn letter_full_alphabet_wrap_is_identity() {
    assert_eq!(
        run_ok("'m' + + + + + + + + + + + + + + + + + + + + + + + + + + STDOUT ;"),
        vec!["m"]
    );
}

#[test]
fn letter_repeat_three_outputs_d() {
    assert_eq!(run_ok("'a' {3} + STDOUT ;"), vec!["d"]);
}

#[test]
fn letter_wraps_forward_from_z() {
    assert_eq!(run_ok("'z' + STDOUT ;"), vec!["a"]);
}

#[test]
fn letter_wraps_backward_from_upper_a() {
    assert_eq!(run_ok("'A' - STDOUT ;"), vec!["Z"]);
}

#[test]
fn bound_variable_reflects_its_value() {
    assert_eq!(run_ok("5 $x STDOUT ; $x + STDOUT ;"), vec!["5", "6"]);
}

#[test]
fn binding_happens_at_that_point_in_the_chain() {
    assert_eq!(run_ok("5 + $x + ; $x STDOUT ;"), vec!["6"]);
}

#[test]
fn nested_repeats_compound_multiplicatively() {
    assert_eq!(run_ok("3 {2} {2} + STDOUT ;"), vec!["7"]);
}

#[test]
fn repeat_zero_applies_nothing() {
    assert_eq!(run_ok("3 {0} + STDOUT ;"), vec!["3"]);
}

#[test]
fn string_rotation_shifts_every_letter() {
    assert_eq!(run_ok("\"abz\" + STDOUT ;"), vec!["bca"]);
}

#[test]
fn string_rotation_passes_whitespace_through() {
    assert_eq!(run_ok("\"a b\" + STDOUT ;"), vec!["b c"]);
}

#[test]
fn string_rotation_preserves_case() {
    assert_eq!(run_ok("\"Az\" + STDOUT ;"), vec!["Ba"]);
}

#[test]
fn float_increment_is_exact_decimal() {
    assert_eq!(run_ok("1.5 + STDOUT ;"), vec!["2.5"]);
}

#[test]
fn float_crosses_zero_exactly() {
    assert_eq!(run_ok("-0.25 + STDOUT ;"), vec!["0.75"]);
}

#[test]
fn float_keeps_its_written_scale() {
    assert_eq!(run_ok("2.50 - STDOUT ;"), vec!["1.50"]);
}

#[test]
fn integer_overflow_is_a_runtime_fault() {
    let (output, fault) = run_fault("9223372036854775807 + STDOUT ;");
    assert_eq!(output, Vec::<String>::new());
    assert!(matches!(fault, RunError::Overflow));
}

#[test]
fn oversized_integer_literal_is_malformed() {
    let (_, fault) = run_fault("99999999999999999999 STDOUT ;");
    assert!(matches!(fault, RunError::MalformedLiteral { .. }));
}

#[test]
fn rotating_a_digit_character_is_a_fault() {
    let (output, fault) = run_fault("\"a1\" + STDOUT ;");
    assert_eq!(output, Vec::<String>::new());
    assert!(matches!(fault, RunError::UnsupportedChar));
}

#[test]
fn output_before_the_fault_is_kept() {
    let (output, fault) = run_fault("1 STDOUT ; \"?\" + ;");
    assert_eq!(output, vec!["1"]);
    assert!(matches!(fault, RunError::UnsupportedChar));
}

#[test]
fn session_keeps_bindings_across_inputs() {
    let mut session = Session::new();
    let (out1, err1) = session.eval(&String::from("5 $x STDOUT ;"));
    assert!(err1.is_none());
    assert_eq!(out1, vec!["5"]);
    let (out2, err2) = session.eval(&String::from("$x + STDOUT ;"));
    assert!(err2.is_none());
    assert_eq!(out2, vec!["6"]);
}

#[test]
fn session_rejects_rebinding_across_inputs() {
    let mut session = Session::new();
    session.eval(&String::from("5 $x ;"));
    let (_, err) = session.eval(&String::from("6 $x ;"));
    assert!(matches!(err, Some(EvalError::SyntaxFailed { .. })));
}

#[test]
fn session_recovers_after_an_incomplete_line() {
    let mut session = Session::new();
    let (_, err1) = session.eval(&String::from("5 +"));
    assert!(matches!(err1, Some(EvalError::SyntaxFailed { .. })));
    let (out2, err2) = session.eval(&String::from("6 STDOUT ;"));
    assert!(err2.is_none());
    assert_eq!(out2, vec!["6"]);
}

#[test]
fn lex_failure_blocks_the_run() {
    let (output, err) = run_program(&String::from("5 @ STDOUT ;"));
    assert_eq!(output, Vec::<String>::new());
    assert!(matches!(err, Some(EvalError::LexFailed { .. })));
}

#[test]
fn syntax_failure_blocks_the_run() {
    let (output, err) = run_program(&String::from("$nope STDOUT ;"));
    assert_eq!(output, Vec::<String>::new());
    assert!(matches!(err, Some(EvalError::SyntaxFailed { .. })));
}
