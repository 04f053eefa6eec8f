//! Syntax analysis: recursive descent from tokens to a syntax tree.
//!
//! A program is a sequence of statements, `Source operator* Semicolon`.
//! The program parser skips whitespace tokens between statements and
//! resynchronizes at statement boundaries: a failed statement still
//! consumes its tokens through the next semicolon (or the end of
//! input), so every statement of the program is examined and every
//! error reported in one pass. The parser threads a set of the variable
//! names declared so far, enforcing declare-before-use for sources and
//! single assignment for bindings; the set persists across calls, so in
//! an interactive session the discipline spans the whole session.

use vstd::prelude::*;

use crate::lex::tokens_view;
use crate::tokens::Token;
use crate::tokens::TokenName;
use crate::tokens::TokenV;
use crate::tree::SyntaxTree;
use crate::tree::SyntaxTreeKind;
use crate::tree::TreeV;
use crate::tree::wf_operator;
use crate::tree::wf_program;
use crate::tree::wf_statement;

verus! {

/// A syntax error, carrying what the statement grammar or the
/// variable discipline objected to.
#[derive(Debug, Clone)]
pub enum SyntaxError {
    UnexpectedToken { unexpected: Token, message: String },
    UndeclaredVariable { var_name: String },
    AssignedVariableTwice { var_name: String },
    LineIncomplete,
}

/// The mathematical image of a [`SyntaxError`].
pub ghost enum SynErrV {
    UnexpectedToken { unexpected: TokenV, message: Seq<char> },
    UndeclaredVariable { var_name: Seq<char> },
    AssignedVariableTwice { var_name: Seq<char> },
    LineIncomplete,
}

impl View for SyntaxError {
    type V = SynErrV;

    open spec fn view(&self) -> SynErrV {
        match self {
            SyntaxError::UnexpectedToken { unexpected, message } => SynErrV::UnexpectedToken {
                unexpected: unexpected@,
                message: message@,
            },
            SyntaxError::UndeclaredVariable { var_name } => SynErrV::UndeclaredVariable {
                var_name: var_name@,
            },
            SyntaxError::AssignedVariableTwice { var_name } => SynErrV::AssignedVariableTwice {
                var_name: var_name@,
            },
            SyntaxError::LineIncomplete => SynErrV::LineIncomplete,
        }
    }
}

/// The views of a vector of syntax errors.
pub open spec fn syn_errors_view(es: Seq<SyntaxError>) -> Seq<SynErrV> {
    es.map_values(|e: SyntaxError| e@)
}

/// The message attached to an unexpected token at the start of a
/// statement.
pub open spec fn source_message() -> Seq<char> {
    "StatementParser: expected statement to start with Letter/Integer/Float/UString"@
}

/// The message attached to an unexpected token in an operator chain.
pub open spec fn operator_message() -> Seq<char> {
    "StatementParser: expected UnaryOperator or Semicolon"@
}

/// The message attached to an unexpected token after a repeat count.
pub open spec fn repeater_message() -> Seq<char> {
    "RepeaterParser: expected UnaryOp"@
}

/// A leaf node of the given kind carrying the given token.
pub open spec fn leaf(kind: SyntaxTreeKind, tok: TokenV) -> TreeV {
    TreeV { kind, children: Seq::empty(), token: Option::Some(tok) }
}

/// What parsing a repeat block yields: the next cursor position, the
/// node built, and the errors found. The node is meaningful only when
/// there are no errors.
#[verifier::ext_equal]
pub ghost struct RepParse {
    pub next: int,
    pub node: TreeV,
    pub errs: Seq<SynErrV>,
}

/// Parses the operator a repeat-count token applies to, starting at
/// position `i`: one increment, decrement or print operator, or
/// another repeat block, which nests. `rep_tok` is the repeat-count
/// token; the node built is a `RepeatedUnaryOp` wrapping the operator.
/// If the stream ends first, that is an incomplete line.
pub open spec fn spec_parse_repeater(ts: Seq<TokenV>, i: int, rep_tok: TokenV) -> RepParse
    decreases ts.len() - i,
{
    let node0 = TreeV {
        kind: SyntaxTreeKind::RepeatedUnaryOp,
        children: Seq::empty(),
        token: Option::Some(rep_tok),
    };
    if i < 0 || i >= ts.len() {
        RepParse { next: if i < 0 { ts.len() as int } else { i }, node: node0, errs: seq![SynErrV::LineIncomplete] }
    } else {
        let op = ts[i];
        if op.name == TokenName::Repeater {
            let inner = spec_parse_repeater(ts, i + 1, op);
            RepParse {
                next: inner.next,
                node: TreeV {
                    kind: SyntaxTreeKind::RepeatedUnaryOp,
                    children: seq![inner.node],
                    token: Option::Some(rep_tok),
                },
                errs: inner.errs,
            }
        } else if op.name == TokenName::Plus || op.name == TokenName::Minus || op.name
            == TokenName::Stdout {
            RepParse {
                next: i + 1,
                node: TreeV {
                    kind: SyntaxTreeKind::RepeatedUnaryOp,
                    children: seq![leaf(SyntaxTreeKind::UnaryOp, op)],
                    token: Option::Some(rep_tok),
                },
                errs: Seq::empty(),
            }
        } else {
            RepParse {
                next: i + 1,
                node: node0,
                errs: seq![
                    SynErrV::UnexpectedToken { unexpected: op, message: repeater_message() },
                ],
            }
        }
    }
}

/// What parsing a statement yields: the next cursor position, the
/// variable scope after it, the statement node built, and the errors
/// found. The node is meaningful only when there are no errors.
#[verifier::ext_equal]
pub ghost struct StmtParse {
    pub next: int,
    pub scope: Set<Seq<char>>,
    pub stmt: TreeV,
    pub errs: Seq<SynErrV>,
}

/// Parses the operator chain of a statement from position `i`,
/// accumulating onto `stmt` and `errs`: operators and bindings extend
/// the statement, a semicolon closes it, and if the stream ends first
/// the line is incomplete. A binding of a name already in scope is a
/// second assignment; an accepted binding adds the name to the scope.
pub open spec fn spec_parse_operators(
    ts: Seq<TokenV>,
    i: int,
    scope: Set<Seq<char>>,
    stmt: TreeV,
    errs: Seq<SynErrV>,
) -> StmtParse
    decreases ts.len() - i,
{
    if i < 0 || i >= ts.len() {
        StmtParse { next: if i < 0 { ts.len() as int } else { i }, scope, stmt, errs: errs.push(SynErrV::LineIncomplete) }
    } else {
        let tok = ts[i];
        if tok.name == TokenName::Plus || tok.name == TokenName::Minus || tok.name
            == TokenName::Stdout {
            let stmt1 = TreeV {
                kind: stmt.kind,
                children: stmt.children.push(leaf(SyntaxTreeKind::UnaryOp, tok)),
                token: stmt.token,
            };
            spec_parse_operators(ts, i + 1, scope, stmt1, errs)
        } else if tok.name == TokenName::Variable {
            if scope.contains(tok.value) {
                let errs1 = errs.push(SynErrV::AssignedVariableTwice { var_name: tok.value });
                spec_parse_operators(ts, i + 1, scope, stmt, errs1)
            } else {
                let stmt1 = TreeV {
                    kind: stmt.kind,
                    children: stmt.children.push(leaf(SyntaxTreeKind::UnaryOp, tok)),
                    token: stmt.token,
                };
                spec_parse_operators(ts, i + 1, scope.insert(tok.value), stmt1, errs)
            }
        } else if tok.name == TokenName::Repeater {
            let rep = spec_parse_repeater(ts, i + 1, tok);
            let j = if i < rep.next <= ts.len() {
                rep.next
            } else {
                i + 1
            };
            if rep.errs.len() == 0 {
                let stmt1 = TreeV {
                    kind: stmt.kind,
                    children: stmt.children.push(rep.node),
                    token: stmt.token,
                };
                spec_parse_operators(ts, j, scope, stmt1, errs)
            } else {
                spec_parse_operators(ts, j, scope, stmt, errs + rep.errs)
            }
        } else if tok.name == TokenName::Semicolon {
            let stmt1 = TreeV {
                kind: stmt.kind,
                children: stmt.children.push(
                    TreeV {
                        kind: SyntaxTreeKind::EndOfLine,
                        children: Seq::empty(),
                        token: Option::None,
                    },
                ),
                token: stmt.token,
            };
            StmtParse { next: i + 1, scope, stmt: stmt1, errs }
        } else {
            let errs1 = errs.push(
                SynErrV::UnexpectedToken { unexpected: tok, message: operator_message() },
            );
            spec_parse_operators(ts, i + 1, scope, stmt, errs1)
        }
    }
}

/// Parses one statement starting at position `i`: a source (a literal,
/// or a variable already in scope), then its operator chain through
/// the closing semicolon.
pub open spec fn spec_parse_statement(ts: Seq<TokenV>, i: int, scope: Set<Seq<char>>) -> StmtParse {
    let stmt0 = TreeV {
        kind: SyntaxTreeKind::Statement,
        children: Seq::empty(),
        token: Option::None,
    };
    if i < 0 || i >= ts.len() {
        StmtParse { next: i + 1, scope, stmt: stmt0, errs: seq![SynErrV::LineIncomplete] }
    } else {
        let src = ts[i];
        if src.name == TokenName::Letter || src.name == TokenName::Integer || src.name
            == TokenName::Float || src.name == TokenName::UString {
            let stmt1 = TreeV {
                kind: stmt0.kind,
                children: seq![leaf(SyntaxTreeKind::Source, src)],
                token: stmt0.token,
            };
            spec_parse_operators(ts, i + 1, scope, stmt1, Seq::empty())
        } else if src.name == TokenName::Variable {
            if scope.contains(src.value) {
                let stmt1 = TreeV {
                    kind: stmt0.kind,
                    children: seq![leaf(SyntaxTreeKind::Source, src)],
                    token: stmt0.token,
                };
                spec_parse_operators(ts, i + 1, scope, stmt1, Seq::empty())
            } else {
                spec_parse_operators(
                    ts,
                    i + 1,
                    scope,
                    stmt0,
                    seq![SynErrV::UndeclaredVariable { var_name: src.value }],
                )
            }
        } else {
            spec_parse_operators(
                ts,
                i + 1,
                scope,
                stmt0,
                seq![SynErrV::UnexpectedToken { unexpected: src, message: source_message() }],
            )
        }
    }
}

/// What parsing a program yields: the scope after it, the statement
/// subtrees of the statements that parsed cleanly, and all errors in
/// order.
#[verifier::ext_equal]
pub ghost struct ProgParse {
    pub scope: Set<Seq<char>>,
    pub stmts: Seq<TreeV>,
    pub errs: Seq<SynErrV>,
}

/// Parses a whole program from position `i`: whitespace tokens between
/// statements are skipped, and each statement is parsed in turn. A
/// statement that fails contributes its errors but not a subtree;
/// parsing resumes at the position where it stopped consuming.
pub open spec fn spec_parse_program(ts: Seq<TokenV>, i: int, scope: Set<Seq<char>>) -> ProgParse
    decreases ts.len() - i,
{
    if i < 0 || i >= ts.len() {
        ProgParse { scope, stmts: Seq::empty(), errs: Seq::empty() }
    } else if ts[i].name == TokenName::Whitespace {
        spec_parse_program(ts, i + 1, scope)
    } else {
        let st = spec_parse_statement(ts, i, scope);
        let j = if i < st.next <= ts.len() {
            st.next
        } else {
            i + 1
        };
        let rest = spec_parse_program(ts, j, st.scope);
        if st.errs.len() == 0 {
            ProgParse {
                scope: rest.scope,
                stmts: seq![st.stmt] + rest.stmts,
                errs: rest.errs,
            }
        } else {
            ProgParse { scope: rest.scope, stmts: rest.stmts, errs: st.errs + rest.errs }
        }
    }
}

/// Parsing a repeat block consumes at least the operator it applies to.
pub proof fn lemma_repeater_next(ts: Seq<TokenV>, i: int, rep_tok: TokenV)
    requires
        0 <= i <= ts.len(),
    ensures
        spec_parse_repeater(ts, i, rep_tok).next >= i,
        i < ts.len() ==> spec_parse_repeater(ts, i, rep_tok).next >= i + 1,
        spec_parse_repeater(ts, i, rep_tok).next <= ts.len(),
    decreases ts.len() - i,
{
    if 0 <= i < ts.len() && ts[i].name == TokenName::Repeater {
        lemma_repeater_next(ts, i + 1, ts[i]);
    }
}

/// Parsing an operator chain never moves the cursor backwards, and
/// stops no later than the end of the stream.
pub proof fn lemma_operators_next(
    ts: Seq<TokenV>,
    i: int,
    scope: Set<Seq<char>>,
    stmt: TreeV,
    errs: Seq<SynErrV>,
)
    requires
        0 <= i <= ts.len(),
    ensures
        spec_parse_operators(ts, i, scope, stmt, errs).next >= i,
        spec_parse_operators(ts, i, scope, stmt, errs).next <= ts.len(),
    decreases ts.len() - i,
{
    if 0 <= i < ts.len() {
        let tok = ts[i];
        if tok.name == TokenName::Plus || tok.name == TokenName::Minus || tok.name
            == TokenName::Stdout {
            let stmt1 = TreeV {
                kind: stmt.kind,
                children: stmt.children.push(leaf(SyntaxTreeKind::UnaryOp, tok)),
                token: stmt.token,
            };
            lemma_operators_next(ts, i + 1, scope, stmt1, errs);
        } else if tok.name == TokenName::Variable {
            if scope.contains(tok.value) {
                let errs1 = errs.push(SynErrV::AssignedVariableTwice { var_name: tok.value });
                lemma_operators_next(ts, i + 1, scope, stmt, errs1);
            } else {
                let stmt1 = TreeV {
                    kind: stmt.kind,
                    children: stmt.children.push(leaf(SyntaxTreeKind::UnaryOp, tok)),
                    token: stmt.token,
                };
                lemma_operators_next(ts, i + 1, scope.insert(tok.value), stmt1, errs);
            }
        } else if tok.name == TokenName::Repeater {
            let rep = spec_parse_repeater(ts, i + 1, tok);
            lemma_repeater_next(ts, i + 1, tok);
            let j = if i < rep.next <= ts.len() {
                rep.next
            } else {
                i + 1
            };
            if rep.errs.len() == 0 {
                let stmt1 = TreeV {
                    kind: stmt.kind,
                    children: stmt.children.push(rep.node),
                    token: stmt.token,
                };
                lemma_operators_next(ts, j, scope, stmt1, errs);
            } else {
                lemma_operators_next(ts, j, scope, stmt, errs + rep.errs);
            }
        } else if tok.name == TokenName::Semicolon {
        } else {
            let errs1 = errs.push(
                SynErrV::UnexpectedToken { unexpected: tok, message: operator_message() },
            );
            lemma_operators_next(ts, i + 1, scope, stmt, errs1);
        }
    }
}

/// A repeat block that parses without errors yields a well-formed
/// operator node.
pub proof fn lemma_repeater_wf(ts: Seq<TokenV>, i: int, rep_tok: TokenV)
    requires
        rep_tok.name == TokenName::Repeater,
    ensures
        spec_parse_repeater(ts, i, rep_tok).errs.len() == 0 ==> wf_operator(
            spec_parse_repeater(ts, i, rep_tok).node,
        ),
    decreases ts.len() - i,
{
    if 0 <= i < ts.len() {
        let r = spec_parse_repeater(ts, i, rep_tok);
        let op = ts[i];
        if op.name == TokenName::Repeater {
            lemma_repeater_wf(ts, i + 1, op);
            let inner = spec_parse_repeater(ts, i + 1, op);
            assert(r.node.children[0] == inner.node);
        } else if op.name == TokenName::Plus || op.name == TokenName::Minus || op.name
            == TokenName::Stdout {
            assert(r.node.children[0] == leaf(SyntaxTreeKind::UnaryOp, op));
            assert(wf_operator(leaf(SyntaxTreeKind::UnaryOp, op)));
        }
    }
}

/// A statement under construction that starts well: a source first,
/// then only well-formed operators.
pub open spec fn statement_prefix_wf(stmt: TreeV) -> bool {
    &&& stmt.kind == SyntaxTreeKind::Statement
    &&& stmt.children.len() >= 1
    &&& crate::tree::wf_source(stmt.children[0])
    &&& forall|k: int| 1 <= k < stmt.children.len() ==> wf_operator(#[trigger] stmt.children[k])
}

/// An operator chain that finishes without errors extends a statement
/// that starts well into a well-formed statement, and can only finish
/// cleanly if it started cleanly.
pub proof fn lemma_operators_wf(
    ts: Seq<TokenV>,
    i: int,
    scope: Set<Seq<char>>,
    stmt: TreeV,
    errs: Seq<SynErrV>,
)
    ensures
        ({
            let r = spec_parse_operators(ts, i, scope, stmt, errs);
            r.errs.len() == 0 ==> (errs.len() == 0 && (statement_prefix_wf(stmt)
                ==> wf_statement(r.stmt)))
        }),
    decreases ts.len() - i,
{
    if 0 <= i < ts.len() {
        let tok = ts[i];
        if tok.name == TokenName::Plus || tok.name == TokenName::Minus || tok.name
            == TokenName::Stdout {
            let stmt1 = TreeV {
                kind: stmt.kind,
                children: stmt.children.push(leaf(SyntaxTreeKind::UnaryOp, tok)),
                token: stmt.token,
            };
            lemma_operators_wf(ts, i + 1, scope, stmt1, errs);
        } else if tok.name == TokenName::Variable {
            if scope.contains(tok.value) {
                let errs1 = errs.push(SynErrV::AssignedVariableTwice { var_name: tok.value });
                lemma_operators_wf(ts, i + 1, scope, stmt, errs1);
            } else {
                let stmt1 = TreeV {
                    kind: stmt.kind,
                    children: stmt.children.push(leaf(SyntaxTreeKind::UnaryOp, tok)),
                    token: stmt.token,
                };
                lemma_operators_wf(ts, i + 1, scope.insert(tok.value), stmt1, errs);
            }
        } else if tok.name == TokenName::Repeater {
            let rep = spec_parse_repeater(ts, i + 1, tok);
            lemma_repeater_wf(ts, i + 1, tok);
            let j = if i < rep.next <= ts.len() {
                rep.next
            } else {
                i + 1
            };
            if rep.errs.len() == 0 {
                let stmt1 = TreeV {
                    kind: stmt.kind,
                    children: stmt.children.push(rep.node),
                    token: stmt.token,
                };
                lemma_operators_wf(ts, j, scope, stmt1, errs);
            } else {
                lemma_operators_wf(ts, j, scope, stmt, errs + rep.errs);
            }
        } else if tok.name == TokenName::Semicolon {
            let r = spec_parse_operators(ts, i, scope, stmt, errs);
            if statement_prefix_wf(stmt) {
                assert(r.stmt.children.len() == stmt.children.len() + 1);
                assert(forall|k: int|
                    1 <= k < r.stmt.children.len() - 1 ==> wf_operator(
                        #[trigger] r.stmt.children[k],
                    ));
            }
        } else {
            let errs1 = errs.push(
                SynErrV::UnexpectedToken { unexpected: tok, message: operator_message() },
            );
            lemma_operators_wf(ts, i + 1, scope, stmt, errs1);
        }
    }
}

/// A statement that parses without errors yields a well-formed
/// statement node.
pub proof fn lemma_statement_wf(ts: Seq<TokenV>, i: int, scope: Set<Seq<char>>)
    ensures
        spec_parse_statement(ts, i, scope).errs.len() == 0 ==> wf_statement(
            spec_parse_statement(ts, i, scope).stmt,
        ),
{
    let stmt0 = TreeV {
        kind: SyntaxTreeKind::Statement,
        children: Seq::empty(),
        token: Option::None,
    };
    if 0 <= i < ts.len() {
        let src = ts[i];
        if src.name == TokenName::Letter || src.name == TokenName::Integer || src.name
            == TokenName::Float || src.name == TokenName::UString || (src.name
            == TokenName::Variable && scope.contains(src.value)) {
            let stmt1 = TreeV {
                kind: stmt0.kind,
                children: seq![leaf(SyntaxTreeKind::Source, src)],
                token: stmt0.token,
            };
            lemma_operators_wf(ts, i + 1, scope, stmt1, Seq::empty());
        } else if src.name == TokenName::Variable {
            lemma_operators_wf(
                ts,
                i + 1,
                scope,
                stmt0,
                seq![SynErrV::UndeclaredVariable { var_name: src.value }],
            );
        } else {
            lemma_operators_wf(
                ts,
                i + 1,
                scope,
                stmt0,
                seq![SynErrV::UnexpectedToken { unexpected: src, message: source_message() }],
            );
        }
    }
}

/// A program that parses without errors yields only well-formed
/// statement subtrees: the tree handed to the interpreter is
/// well-formed.
pub proof fn lemma_program_wf(ts: Seq<TokenV>, i: int, scope: Set<Seq<char>>)
    ensures
        ({
            let p = spec_parse_program(ts, i, scope);
            p.errs.len() == 0 ==> wf_program(
                TreeV {
                    kind: SyntaxTreeKind::ProgramStart,
                    children: p.stmts,
                    token: Option::None,
                },
            )
        }),
    decreases ts.len() - i,
{
    if 0 <= i < ts.len() {
        if ts[i].name == TokenName::Whitespace {
            lemma_program_wf(ts, i + 1, scope);
        } else {
            let st = spec_parse_statement(ts, i, scope);
            lemma_statement_wf(ts, i, scope);
            let j = if i < st.next <= ts.len() {
                st.next
            } else {
                i + 1
            };
            lemma_program_wf(ts, j, st.scope);
            let p = spec_parse_program(ts, i, scope);
            let rest = spec_parse_program(ts, j, st.scope);
            if p.errs.len() == 0 && st.errs.len() == 0 {
                let rest_root = TreeV {
                    kind: SyntaxTreeKind::ProgramStart,
                    children: rest.stmts,
                    token: Option::None,
                };
                assert(wf_program(rest_root));
                assert forall|k: int| 0 <= k < p.stmts.len() implies wf_statement(
                    #[trigger] p.stmts[k],
                ) by {
                    if k == 0 {
                        assert(p.stmts[k] == st.stmt);
                    } else {
                        assert(p.stmts[k] == rest.stmts[k - 1]);
                        assert(wf_statement(rest_root.children[k - 1]));
                    }
                }
            }
        }
    }
}

/// Parsing a statement always advances the cursor, and stops no later
/// than the end of the stream.
pub proof fn lemma_statement_next(ts: Seq<TokenV>, i: int, scope: Set<Seq<char>>)
    requires
        0 <= i < ts.len(),
    ensures
        i < spec_parse_statement(ts, i, scope).next <= ts.len(),
{
    let stmt0 = TreeV {
        kind: SyntaxTreeKind::Statement,
        children: Seq::empty(),
        token: Option::None,
    };
    let src = ts[i];
    if src.name == TokenName::Letter || src.name == TokenName::Integer || src.name
        == TokenName::Float || src.name == TokenName::UString {
        let stmt1 = TreeV {
            kind: stmt0.kind,
            children: seq![leaf(SyntaxTreeKind::Source, src)],
            token: stmt0.token,
        };
        lemma_operators_next(ts, i + 1, scope, stmt1, Seq::empty());
    } else if src.name == TokenName::Variable {
        if scope.contains(src.value) {
            let stmt1 = TreeV {
                kind: stmt0.kind,
                children: seq![leaf(SyntaxTreeKind::Source, src)],
                token: stmt0.token,
            };
            lemma_operators_next(ts, i + 1, scope, stmt1, Seq::empty());
        } else {
            lemma_operators_next(
                ts,
                i + 1,
                scope,
                stmt0,
                seq![SynErrV::UndeclaredVariable { var_name: src.value }],
            );
        }
    } else {
        lemma_operators_next(
            ts,
            i + 1,
            scope,
            stmt0,
            seq![SynErrV::UnexpectedToken { unexpected: src, message: source_message() }],
        );
    }
}

/// The set of variable names declared so far. It is threaded through
/// parsing of a whole program — or, interactively, a whole session —
/// so declare-before-use and single assignment hold across all of it.
pub struct VarScope {
    names: Vec<String>,
}

impl View for VarScope {
    type V = Set<Seq<char>>;

    closed spec fn view(&self) -> Set<Seq<char>> {
        self.names@.map_values(|n: String| n@).to_set()
    }
}

impl VarScope {
    /// An empty scope: no variable declared yet.
    pub fn new() -> (r: Self)
        ensures
            r@ == Set::<Seq<char>>::empty(),
    {
        let r = VarScope { names: Vec::new() };
        proof {
            assert(r@ =~= Set::<Seq<char>>::empty());
        }
        r
    }

    /// Whether `name` has been declared.
    pub fn contains(&self, name: &String) -> (r: bool)
        ensures
            r == self@.contains(name@),
    {
        let mut k: usize = 0;
        while k < self.names.len()
            invariant
                k <= self.names.len(),
                forall|j: int| 0 <= j < k ==> self.names@[j]@ != name@,
            decreases self.names.len() - k,
        {
            if crate::strutil::string_eq(&self.names[k], name) {
                proof {
                    assert(self.names@.map_values(|n: String| n@)[k as int] == name@);
                }
                return true;
            }
            k = k + 1;
        }
        proof {
            let mapped = self.names@.map_values(|n: String| n@);
            if self@.contains(name@) {
                let w = choose|w: int| 0 <= w < mapped.len() && mapped[w] == name@;
                assert(self.names@[w]@ != name@);
            }
        }
        false
    }

    /// Declares `name`.
    pub fn insert(&mut self, name: String)
        ensures
            final(self)@ == old(self)@.insert(name@),
    {
        self.names.push(name);
        proof {
            let before = old(self).names@.map_values(|n: String| n@);
            let after = final(self).names@.map_values(|n: String| n@);
            assert(after =~= before.push(name@));
            assert forall|x: Seq<char>| final(self)@.contains(x) <==> old(self)@.insert(
                name@,
            ).contains(x) by {
                if after.contains(x) {
                    let w = choose|w: int| 0 <= w < after.len() && after[w] == x;
                    if w < before.len() {
                        assert(before[w] == x);
                    }
                }
                if before.contains(x) {
                    let w = choose|w: int| 0 <= w < before.len() && before[w] == x;
                    assert(after[w] == x);
                }
                if x == name@ {
                    assert(after[after.len() - 1] == x);
                }
            }
            assert(final(self)@ =~= old(self)@.insert(name@));
        }
    }
}

/// The program parser: parses a whole token stream, statement by
/// statement, resynchronizing at statement boundaries.
#[derive(Debug, PartialEq)]
pub struct ProgramParser {}

/// The statement parser: parses one `Source operator* Semicolon`
/// statement, consuming through the next semicolon or the end of the
/// stream.
#[derive(Debug, PartialEq)]
pub struct StatementParser {}

/// The repeat-block parser: holds the repeat-count token and parses
/// the single operator (possibly another repeat block) it applies to.
#[derive(Debug)]
pub struct RepeaterParser {
    pub token: Token,
}

impl ProgramParser {
    pub fn new() -> (r: Self) {
        ProgramParser {  }
    }

    /// Parses the whole of `tokens` as a program. On success the tree
    /// holds one child per statement and is well-formed; on failure
    /// every error of every statement is reported, in order. Either
    /// way `variables_in_scope` ends up as the statements left it.
    pub fn parse(&mut self, variables_in_scope: &mut VarScope, tokens: &Vec<Token>) -> (r: Result<
        SyntaxTree,
        Vec<SyntaxError>,
    >)
        ensures
            *final(self) == *old(self),
            ({
                let p = spec_parse_program(tokens_view(tokens@), 0, old(variables_in_scope)@);
                &&& final(variables_in_scope)@ == p.scope
                &&& match r {
                    Ok(tree) => p.errs.len() == 0 && tree@ == (TreeV {
                        kind: SyntaxTreeKind::ProgramStart,
                        children: p.stmts,
                        token: Option::None,
                    }) && wf_program(tree@),
                    Err(es) => p.errs.len() > 0 && syn_errors_view(es@) == p.errs,
                }
            }),
    {
        let ghost ts = tokens_view(tokens@);
        let ghost target = spec_parse_program(ts, 0, old(variables_in_scope)@);
        let mut tree = SyntaxTree::root();
        let mut errors: Vec<SyntaxError> = Vec::new();
        let mut i: usize = 0;
        while i < tokens.len()
            invariant
                i <= tokens@.len(),
                ts == tokens_view(tokens@),
                ts.len() == tokens@.len(),
                target == spec_parse_program(ts, 0, old(variables_in_scope)@),
                tree@.kind == SyntaxTreeKind::ProgramStart,
                tree@.token == Option::<TokenV>::None,
                ({
                    let rest = spec_parse_program(ts, i as int, variables_in_scope@);
                    &&& target.scope == rest.scope
                    &&& target.stmts == tree@.children + rest.stmts
                    &&& target.errs == syn_errors_view(errors@) + rest.errs
                }),
            decreases tokens@.len() - i,
        {
            proof {
                assert(ts[i as int] == tokens@[i as int]@);
            }
            if matches!(tokens[i].name, TokenName::Whitespace) {
                i = i + 1;
            } else {
                let ghost scope_before = variables_in_scope@;
                let ghost i_before = i as int;
                let mut sp = StatementParser {  };
                let result = sp.parse(variables_in_scope, tokens, &mut i);
                proof {
                    lemma_statement_next(ts, i_before, scope_before);
                }
                match result {
                    Ok(subtree) => {
                        proof {
                            lemma_statement_wf(ts, i_before, scope_before);
                        }
                        tree.add_child(subtree);
                        proof {
                            let st = spec_parse_statement(ts, i_before, scope_before);
                            let rest = spec_parse_program(ts, i as int, variables_in_scope@);
                            assert(target.stmts =~= tree@.children + rest.stmts);
                        }
                    },
                    Err(mut es) => {
                        proof {
                            let st = spec_parse_statement(ts, i_before, scope_before);
                            let rest = spec_parse_program(ts, i as int, variables_in_scope@);
                            assert(syn_errors_view(errors@ + es@) =~= syn_errors_view(errors@)
                                + syn_errors_view(es@));
                            assert(target.errs =~= syn_errors_view(errors@) + (st.errs
                                + rest.errs));
                            assert(syn_errors_view(errors@) + (st.errs + rest.errs) =~= (
                            syn_errors_view(errors@) + st.errs) + rest.errs);
                        }
                        errors.append(&mut es);
                    },
                }
            }
        }
        proof {
            let rest = spec_parse_program(ts, i as int, variables_in_scope@);
            assert(rest.stmts =~= Seq::<TreeV>::empty());
            assert(target.stmts =~= tree@.children);
            assert(target.errs =~= syn_errors_view(errors@));
            assert(syn_errors_view(errors@).len() == errors@.len());
        }
        if errors.len() == 0 {
            proof {
                lemma_program_wf(ts, 0, old(variables_in_scope)@);
                assert(tree@ =~= (TreeV {
                    kind: SyntaxTreeKind::ProgramStart,
                    children: target.stmts,
                    token: Option::None,
                }));
            }
            Ok(tree)
        } else {
            Err(errors)
        }
    }
}

impl StatementParser {
    pub fn new() -> (r: Self) {
        StatementParser {  }
    }

    /// Parses one statement starting at `*pos`, consuming through the
    /// next semicolon or the end of the stream, and leaves `*pos`
    /// there. Errors accumulate over the whole statement; the scope
    /// keeps any bindings made even when the statement fails.
    pub fn parse(
        &mut self,
        variables_in_scope: &mut VarScope,
        tokens: &Vec<Token>,
        pos: &mut usize,
    ) -> (r: Result<SyntaxTree, Vec<SyntaxError>>)
        requires
            *old(pos) < tokens@.len(),
        ensures
            *final(self) == *old(self),
            ({
                let st = spec_parse_statement(
                    tokens_view(tokens@),
                    *old(pos) as int,
                    old(variables_in_scope)@,
                );
                &&& *final(pos) == st.next
                &&& final(variables_in_scope)@ == st.scope
                &&& match r {
                    Ok(t) => st.errs.len() == 0 && t@ == st.stmt,
                    Err(es) => st.errs.len() > 0 && syn_errors_view(es@) == st.errs,
                }
            }),
    {
        let ghost ts = tokens_view(tokens@);
        let ghost start = *old(pos) as int;
        let ghost scope0 = old(variables_in_scope)@;
        let ghost target = spec_parse_statement(ts, start, scope0);

        let mut statement = SyntaxTree::new(SyntaxTreeKind::Statement, Option::None);
        let mut errors: Vec<SyntaxError> = Vec::new();
        let n = tokens.len();
        let mut i: usize = *pos;

        proof {
            assert(ts[i as int] == tokens@[i as int]@);
        }
        let source_token = &tokens[i];
        match source_token.name {
            TokenName::Letter | TokenName::Integer | TokenName::Float | TokenName::UString => {
                let source = SyntaxTree::new(
                    SyntaxTreeKind::Source,
                    Option::Some(source_token.duplicate()),
                );
                statement.add_child(source);
            },
            TokenName::Variable => {
                if variables_in_scope.contains(&source_token.value) {
                    let source = SyntaxTree::new(
                        SyntaxTreeKind::Source,
                        Option::Some(source_token.duplicate()),
                    );
                    statement.add_child(source);
                } else {
                    errors.push(
                        SyntaxError::UndeclaredVariable { var_name: source_token.value.clone() },
                    );
                }
            },
            _ => {
                errors.push(
                    SyntaxError::UnexpectedToken {
                        unexpected: source_token.duplicate(),
                        message: String::from_str(
                            "StatementParser: expected statement to start with Letter/Integer/Float/UString",
                        ),
                    },
                );
            },
        }
        i = i + 1;
        proof {
            assert(statement@.children =~= spec_statement_children_after_source(ts, start, scope0));
            assert(syn_errors_view(errors@) =~= spec_statement_errors_after_source(
                ts,
                start,
                scope0,
            ));
            assert(target == spec_parse_operators(
                ts,
                i as int,
                variables_in_scope@,
                statement@,
                syn_errors_view(errors@),
            ));
        }

        while i < tokens.len()
            invariant
                i <= tokens@.len(),
                ts == tokens_view(tokens@),
                ts.len() == tokens@.len(),
                target == spec_parse_statement(
                    tokens_view(tokens@),
                    *old(pos) as int,
                    old(variables_in_scope)@,
                ),
                target == spec_parse_operators(
                    ts,
                    i as int,
                    variables_in_scope@,
                    statement@,
                    syn_errors_view(errors@),
                ),
            decreases tokens@.len() - i,
        {
            proof {
                assert(ts[i as int] == tokens@[i as int]@);
            }
            let token = &tokens[i];
            match token.name {
                TokenName::Plus | TokenName::Minus | TokenName::Stdout => {
                    let op = SyntaxTree::new(
                        SyntaxTreeKind::UnaryOp,
                        Option::Some(token.duplicate()),
                    );
                    statement.add_child(op);
                    i = i + 1;

                },
                TokenName::Variable => {
                    let ghost errs_pre = syn_errors_view(errors@);
                    if variables_in_scope.contains(&token.value) {
                        errors.push(
                            SyntaxError::AssignedVariableTwice { var_name: token.value.clone() },
                        );
                        proof {
                            assert(syn_errors_view(errors@) =~= syn_errors_view(
                                errors@.drop_last(),
                            ).push(errors@.last()@));
                            assert(errors@.last()@ == (SynErrV::AssignedVariableTwice {
                                var_name: ts[i as int].value,
                            }));
                            assert(syn_errors_view(errors@) == errs_pre.push(
                                SynErrV::AssignedVariableTwice { var_name: ts[i as int].value },
                            ));
                        }
                    } else {
                        variables_in_scope.insert(token.value.clone());
                        let op = SyntaxTree::new(
                            SyntaxTreeKind::UnaryOp,
                            Option::Some(token.duplicate()),
                        );
                        statement.add_child(op);
                    }
                    i = i + 1;

                },
                TokenName::Repeater => {
                    let ghost i_before = i as int;
                    let mut rp = RepeaterParser::new(token.duplicate());
                    i = i + 1;
                    let result = rp.parse(variables_in_scope, tokens, &mut i);
                    proof {
                        lemma_repeater_next(ts, i_before + 1, ts[i_before]);
                    }
                    match result {
                        Ok(subtree) => {
                            statement.add_child(subtree);
                        },
                        Err(mut es) => {
                            proof {
                                assert(syn_errors_view(errors@ + es@) =~= syn_errors_view(errors@)
                                    + syn_errors_view(es@));
                            }
                            errors.append(&mut es);
                        },
                    }

                },
                TokenName::Semicolon => {
                    let end = SyntaxTree::new(SyntaxTreeKind::EndOfLine, Option::None);
                    statement.add_child(end);
                    i = i + 1;
                    *pos = i;
                    if errors.len() == 0 {
                        proof {
                            assert(syn_errors_view(errors@).len() == 0);
                        }
                        return Ok(statement);
                    } else {
                        proof {
                            assert(syn_errors_view(errors@).len() == errors@.len());
                        }
                        return Err(errors);
                    }
                },
                _ => {
                    let ghost errs_pre = syn_errors_view(errors@);
                    errors.push(
                        SyntaxError::UnexpectedToken {
                            unexpected: token.duplicate(),
                            message: String::from_str(
                                "StatementParser: expected UnaryOperator or Semicolon",
                            ),
                        },
                    );
                    proof {
                        assert(syn_errors_view(errors@) =~= syn_errors_view(
                            errors@.drop_last(),
                        ).push(errors@.last()@));
                        assert(errors@.last()@ == (SynErrV::UnexpectedToken {
                            unexpected: ts[i as int],
                            message: operator_message(),
                        }));
                        assert(syn_errors_view(errors@) == errs_pre.push(
                            SynErrV::UnexpectedToken {
                                unexpected: ts[i as int],
                                message: operator_message(),
                            },
                        ));
                    }
                    i = i + 1;

                },
            }
        }
        errors.push(SyntaxError::LineIncomplete);
        proof {
            assert(syn_errors_view(errors@) =~= syn_errors_view(errors@.drop_last()).push(
                errors@.last()@,
            ));
            assert(syn_errors_view(errors@).len() == errors@.len());
        }
        *pos = i;
        Err(errors)
    }
}

/// The statement children right after the source token was examined:
/// a single source node, or none when the source was rejected.
pub open spec fn spec_statement_children_after_source(
    ts: Seq<TokenV>,
    i: int,
    scope: Set<Seq<char>>,
) -> Seq<TreeV> {
    let src = ts[i];
    if src.name == TokenName::Letter || src.name == TokenName::Integer || src.name
        == TokenName::Float || src.name == TokenName::UString || (src.name == TokenName::Variable
        && scope.contains(src.value)) {
        seq![leaf(SyntaxTreeKind::Source, src)]
    } else {
        Seq::empty()
    }
}

/// The errors right after the source token was examined.
pub open spec fn spec_statement_errors_after_source(
    ts: Seq<TokenV>,
    i: int,
    scope: Set<Seq<char>>,
) -> Seq<SynErrV> {
    let src = ts[i];
    if src.name == TokenName::Letter || src.name == TokenName::Integer || src.name
        == TokenName::Float || src.name == TokenName::UString || (src.name == TokenName::Variable
        && scope.contains(src.value)) {
        Seq::empty()
    } else if src.name == TokenName::Variable {
        seq![SynErrV::UndeclaredVariable { var_name: src.value }]
    } else {
        seq![SynErrV::UnexpectedToken { unexpected: src, message: source_message() }]
    }
}

impl RepeaterParser {
    pub fn new(token: Token) -> (r: Self)
        ensures
            r.token == token,
    {
        RepeaterParser { token }
    }

    /// Parses the operator this repeat block applies to, starting at
    /// `*pos`: one plain operator, or a nested repeat block. The scope
    /// is untouched: repeat blocks wrap no bindings.
    pub fn parse(
        &mut self,
        variables_in_scope: &mut VarScope,
        tokens: &Vec<Token>,
        pos: &mut usize,
    ) -> (r: Result<SyntaxTree, Vec<SyntaxError>>)
        ensures
            *final(self) == *old(self),
            *final(variables_in_scope) == *old(variables_in_scope),
            ({
                let rp = spec_parse_repeater(
                    tokens_view(tokens@),
                    *old(pos) as int,
                    old(self).token@,
                );
                &&& *final(pos) == rp.next
                &&& match r {
                    Ok(t) => rp.errs.len() == 0 && t@ == rp.node,
                    Err(es) => rp.errs.len() > 0 && syn_errors_view(es@) == rp.errs,
                }
            }),
        decreases tokens@.len() - *old(pos),
    {
        let ghost ts = tokens_view(tokens@);
        let mut subtree = SyntaxTree::new(
            SyntaxTreeKind::RepeatedUnaryOp,
            Option::Some(self.token.duplicate()),
        );
        if *pos >= tokens.len() {
            let mut errors: Vec<SyntaxError> = Vec::new();
            errors.push(SyntaxError::LineIncomplete);
            proof {
                assert(syn_errors_view(errors@) =~= seq![SynErrV::LineIncomplete]);
            }
            return Err(errors);
        }
        proof {
            assert(ts[*old(pos) as int] == tokens@[*old(pos) as int]@);
        }
        let operator = &tokens[*pos];
        *pos = *pos + 1;
        match operator.name {
            TokenName::Repeater => {
                let mut nested = RepeaterParser::new(operator.duplicate());
                let result = nested.parse(variables_in_scope, tokens, pos);
                match result {
                    Ok(inner) => {
                        subtree.add_child(inner);
                        proof {
                            let rp = spec_parse_repeater(ts, *old(pos) as int, old(self).token@);
                            assert(subtree@ =~= rp.node);
                        }
                        Ok(subtree)
                    },
                    Err(es) => Err(es),
                }
            },
            TokenName::Plus | TokenName::Minus | TokenName::Stdout => {
                let op = SyntaxTree::new(SyntaxTreeKind::UnaryOp, Option::Some(operator.duplicate()));
                subtree.add_child(op);
                proof {
                    let rp = spec_parse_repeater(ts, *old(pos) as int, old(self).token@);
                    assert(subtree@ =~= rp.node);
                }
                Ok(subtree)
            },
            _ => {
                let mut errors: Vec<SyntaxError> = Vec::new();
                errors.push(
                    SyntaxError::UnexpectedToken {
                        unexpected: operator.duplicate(),
                        message: String::from_str("RepeaterParser: expected UnaryOp"),
                    },
                );
                proof {
                    let rp = spec_parse_repeater(ts, *old(pos) as int, old(self).token@);
                    assert(syn_errors_view(errors@) =~= rp.errs);
                }
                Err(errors)
            },
        }
    }
}

/// Parses `input` as one whole program, with a fresh variable scope:
/// the entry point for batch use.
pub fn syntax_analysis(input: &Vec<Token>) -> (r: Result<SyntaxTree, Vec<SyntaxError>>)
    ensures
        ({
            let p = spec_parse_program(tokens_view(input@), 0, Set::<Seq<char>>::empty());
            match r {
                Ok(tree) => p.errs.len() == 0 && tree@ == (TreeV {
                    kind: SyntaxTreeKind::ProgramStart,
                    children: p.stmts,
                    token: Option::None,
                }) && wf_program(tree@),
                Err(es) => p.errs.len() > 0 && syn_errors_view(es@) == p.errs,
            }
        }),
{
    let mut parser = ProgramParser::new();
    let mut scope = VarScope::new();
    parser.parse(&mut scope, input)
}

} // verus!
