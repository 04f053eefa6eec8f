//! The pipeline as one piece: lex, parse, execute.
//!
//! A [`Session`] holds the long-lived state of interactive use — the
//! parser's variable scope and the interpreter's variable table — and
//! evaluates one input after another against it, so declare-before-use
//! and single assignment hold across the whole session. For batch use,
//! [`run_program`] evaluates one whole program in a fresh session.

use vstd::prelude::*;

use crate::interpret::UInterpreter;
use crate::interpret::spec_exec_program;
use crate::interpret::strings_view;
use crate::interpret::wf_table;
use crate::lex::LexAnalyzer;
use crate::lex::LexError;
use crate::lex::lex_errors_view;
use crate::lex::spec_lex;
use crate::lex::unknown_texts;
use crate::parser::ProgramParser;
use crate::parser::SynErrV;
use crate::parser::SyntaxError;
use crate::parser::VarScope;
use crate::parser::spec_parse_program;
use crate::parser::syn_errors_view;
use crate::value::RunErrV;
use crate::value::RunError;
use crate::value::ValV;

verus! {

/// What stopped an evaluation: the stage that failed, with its
/// diagnostics. A failing stage blocks the later stages.
#[derive(Debug)]
pub enum EvalError {
    LexFailed { errors: Vec<LexError> },
    SyntaxFailed { errors: Vec<SyntaxError> },
    RunFailed { error: RunError },
}

/// The mathematical image of an [`EvalError`].
pub ghost enum EvalErrV {
    LexFailed { errors: Seq<Seq<char>> },
    SyntaxFailed { errors: Seq<SynErrV> },
    RunFailed { error: RunErrV },
}

impl View for EvalError {
    type V = EvalErrV;

    open spec fn view(&self) -> EvalErrV {
        match self {
            EvalError::LexFailed { errors } => EvalErrV::LexFailed {
                errors: lex_errors_view(errors@),
            },
            EvalError::SyntaxFailed { errors } => EvalErrV::SyntaxFailed {
                errors: syn_errors_view(errors@),
            },
            EvalError::RunFailed { error } => EvalErrV::RunFailed { error: error@ },
        }
    }
}

/// What evaluating one input against session state yields: the state
/// after it, the lines printed, and what stopped it, if anything did.
#[verifier::ext_equal]
pub ghost struct EvalOutcome {
    pub scope: Set<Seq<char>>,
    pub table: Map<Seq<char>, ValV>,
    pub out: Seq<Seq<char>>,
    pub err: Option<EvalErrV>,
}

/// Evaluates `input` against a scope and a table: lexing must find no
/// unknown fragment, parsing must report no error, and then the
/// program runs. Parsing updates the scope even when it fails (its
/// bindings were examined); the table moves only when execution runs.
pub open spec fn spec_eval(
    scope: Set<Seq<char>>,
    table: Map<Seq<char>, ValV>,
    input: Seq<char>,
) -> EvalOutcome {
    let toks = spec_lex(input);
    if unknown_texts(toks).len() > 0 {
        EvalOutcome {
            scope,
            table,
            out: Seq::empty(),
            err: Option::Some(EvalErrV::LexFailed { errors: unknown_texts(toks) }),
        }
    } else {
        let p = spec_parse_program(toks, 0, scope);
        if p.errs.len() > 0 {
            EvalOutcome {
                scope: p.scope,
                table,
                out: Seq::empty(),
                err: Option::Some(EvalErrV::SyntaxFailed { errors: p.errs }),
            }
        } else {
            let st = spec_exec_program(table, p.stmts);
            EvalOutcome {
                scope: p.scope,
                table: st.table,
                out: st.out,
                err: match st.err {
                    Option::Some(e) => Option::Some(EvalErrV::RunFailed { error: e }),
                    Option::None => Option::None,
                },
            }
        }
    }
}

/// One interactive session: the lexer, the parser and its variable
/// scope, and the interpreter with its variable table, all living for
/// as long as the session does.
pub struct Session {
    lexer: LexAnalyzer,
    parser: ProgramParser,
    scope: VarScope,
    interpreter: UInterpreter,
}

impl Session {
    /// The variable names the session has declared so far.
    pub closed spec fn scope_view(&self) -> Set<Seq<char>> {
        self.scope@
    }

    /// The variable bindings the session holds so far.
    pub closed spec fn table_view(&self) -> Map<Seq<char>, ValV> {
        self.interpreter@
    }

    /// The session's values respect the value bounds.
    pub closed spec fn inv(&self) -> bool {
        wf_table(self.interpreter@)
    }

    /// A fresh session: nothing declared, nothing bound.
    pub fn new() -> (r: Self)
        ensures
            r.scope_view() == Set::<Seq<char>>::empty(),
            r.table_view() == Map::<Seq<char>, ValV>::empty(),
            r.inv(),
    {
        Session {
            lexer: LexAnalyzer::new(),
            parser: ProgramParser::new(),
            scope: VarScope::new(),
            interpreter: UInterpreter::new(),
        }
    }

    /// Evaluates one input against the session state: the lines
    /// printed, and what stopped the run if anything did.
    pub fn eval(&mut self, input: &String) -> (r: (Vec<String>, Option<EvalError>))
        requires
            old(self).inv(),
        ensures
            final(self).inv(),
            ({
                let o = spec_eval(old(self).scope_view(), old(self).table_view(), input@);
                &&& final(self).scope_view() == o.scope
                &&& final(self).table_view() == o.table
                &&& strings_view(r.0@) == o.out
                &&& match r.1 {
                    Option::Some(e) => o.err == Option::Some(e@),
                    Option::None => o.err is None,
                }
            }),
    {
        let ghost o = spec_eval(old(self).scope_view(), old(self).table_view(), input@);
        let tokens = match self.lexer.lex_analysis(input) {
            Result::Ok(tokens) => tokens,
            Result::Err(errors) => {
                let out: Vec<String> = Vec::new();
                proof {
                    assert(strings_view(out@) =~= Seq::<Seq<char>>::empty());
                }
                return (out, Option::Some(EvalError::LexFailed { errors }));
            },
        };
        let ast = match self.parser.parse(&mut self.scope, &tokens) {
            Result::Ok(ast) => ast,
            Result::Err(errors) => {
                let out: Vec<String> = Vec::new();
                proof {
                    assert(strings_view(out@) =~= Seq::<Seq<char>>::empty());
                }
                return (out, Option::Some(EvalError::SyntaxFailed { errors }));
            },
        };
        let (out, err) = self.interpreter.execute(&ast);
        match err {
            Option::Some(e) => (out, Option::Some(EvalError::RunFailed { error: e })),
            Option::None => (out, Option::None),
        }
    }
}

/// Evaluates one whole program in a fresh session: the batch entry
/// point. The lines printed come back beside what stopped the run, if
/// anything did.
pub fn run_program(input: &String) -> (r: (Vec<String>, Option<EvalError>))
    ensures
        ({
            let o = spec_eval(
                Set::<Seq<char>>::empty(),
                Map::<Seq<char>, ValV>::empty(),
                input@,
            );
            &&& strings_view(r.0@) == o.out
            &&& match r.1 {
                Option::Some(e) => o.err == Option::Some(e@),
                Option::None => o.err is None,
            }
        }),
{
    let mut session = Session::new();
    session.eval(input)
}

} // verus!
