//! Laws of the pipeline, stated and proved once over the
//! specification functions: what lexing, parsing and execution
//! guarantee together, beyond each function's own contract.

use vstd::prelude::*;

use crate::chars::alpha_base;
use crate::chars::alpha_shift;
use crate::chars::char_shift;
use crate::chars::is_alpha_char;
use crate::chars::is_space_char;
use crate::chars::lemma_alpha_shift_alpha;
use crate::chars::lemma_run_len_is;
use crate::chars::run_len;
use crate::interpret::ExecState;
use crate::interpret::spec_apply_op;
use crate::interpret::spec_exec_ops;
use crate::interpret::spec_exec_program;
use crate::interpret::spec_exec_statement;
use crate::interpret::spec_iter_op;
use crate::interpret::spec_source_value;
use crate::interpret::lemma_iter_op_err;
use crate::lex::spec_lex;
use crate::lex::spec_tokens;
use crate::lex::token_at;
use crate::lex::unknown_texts;
use crate::matcher::chosen_kind;
use crate::matcher::match_len;
use crate::matcher::packed_value;
use crate::matcher::whitespace_core;
use crate::numeral::int_to_text;
use crate::numeral::lemma_dec_value_nonneg;
use crate::numeral::lemma_nat_text_value;
use crate::numeral::lemma_nat_to_text_digits;
use crate::numeral::nat_to_text;
use crate::numeral::spec_parse_i64;
use crate::numeral::spec_parse_u32;
use crate::parser::SynErrV;
use crate::parser::StmtParse;
use crate::parser::leaf;
use crate::parser::spec_parse_operators;
use crate::parser::spec_parse_program;
use crate::parser::spec_parse_statement;
use crate::session::EvalErrV;
use crate::session::EvalOutcome;
use crate::session::spec_eval;
use crate::tokens::TokenName;
use crate::tokens::TokenV;
use crate::tree::SyntaxTreeKind;
use crate::tree::TreeV;
use crate::value::ValV;
use crate::value::spec_shift;
use crate::value::spec_to_text;

verus! {

/// An input of nothing but whitespace evaluates to nothing: lexing
/// finds no unknown fragment (whitespace itself forms at most one
/// token), parsing yields a program of no statements, and execution
/// prints nothing and changes nothing, whatever the session state.
pub proof fn law_whitespace_input(
    scope: Set<Seq<char>>,
    table: Map<Seq<char>, crate::value::ValV>,
    input: Seq<char>,
)
    requires
        forall|k: int| 0 <= k < input.len() ==> is_space_char(#[trigger] input[k]),
    ensures
        spec_eval(scope, table, input) == (EvalOutcome {
            scope,
            table,
            out: Seq::<Seq<char>>::empty(),
            err: Option::<EvalErrV>::None,
        }),
{
    if input.len() == 0 {
        assert(spec_lex(input) =~= Seq::<TokenV>::empty());
        assert(unknown_texts(spec_lex(input)).len() == 0);
        let p = spec_parse_program(spec_lex(input), 0, scope);
        assert(p.stmts =~= Seq::<TreeV>::empty() && p.errs =~= Seq::<SynErrV>::empty());
        let st = spec_exec_program(table, p.stmts);
        assert(st.table == table && st.out =~= Seq::<Seq<char>>::empty() && st.err is None);
        assert(spec_eval(scope, table, input) =~= (EvalOutcome {
            scope,
            table,
            out: Seq::<Seq<char>>::empty(),
            err: Option::<EvalErrV>::None,
        }));
    } else {
        lemma_run_len_is(input, 0, input.len() as int, |c: char| is_space_char(c));
        assert(whitespace_core(input, 0) == input.len());
        assert(chosen_kind(input, 0) == TokenName::Whitespace);
        assert(match_len(TokenName::Whitespace, input, 0) == input.len());
        crate::lex::lemma_spec_tokens_step(input, 0);
        assert(spec_tokens(input, input.len() as int) =~= Seq::<TokenV>::empty());
        let tok = token_at(input, 0);
        assert(tok.name == TokenName::Whitespace);
        assert(spec_lex(input) =~= seq![tok]);
        let ts = seq![tok];
        assert(unknown_texts(ts).len() == 0) by {
            assert(ts.drop_last() =~= Seq::<TokenV>::empty());
            assert(ts.last() == tok);
            assert(unknown_texts(Seq::<TokenV>::empty()) =~= Seq::<Seq<char>>::empty());
        }
        let p1 = spec_parse_program(ts, 1, scope);
        assert(p1.stmts =~= Seq::<TreeV>::empty());
        assert(p1.errs =~= Seq::<SynErrV>::empty());
        let p = spec_parse_program(ts, 0, scope);
        assert(ts[0].name == TokenName::Whitespace);
        assert(p == p1);
        let st = spec_exec_program(table, p.stmts);
        assert(p.stmts == Seq::<TreeV>::empty());
        assert(st.table == table && st.out =~= Seq::<Seq<char>>::empty() && st.err is None);
        assert(spec_eval(scope, table, input) =~= (EvalOutcome {
            scope,
            table,
            out: Seq::<Seq<char>>::empty(),
            err: Option::<EvalErrV>::None,
        }));
    }
}

/// Re-quoting the unpacked text of a double-quoted string token and
/// lexing it again reproduces the token: one `UString` token with
/// exactly the original value. The conditions hold of every value the
/// lexer unpacks from a string literal: it is non-empty and holds no
/// double quote.
pub proof fn law_requote_string(v: Seq<char>)
    requires
        v.len() >= 1,
        forall|k: int| 0 <= k < v.len() ==> v[k] != '"',
    ensures
        spec_lex(seq!['"'] + v + seq!['"']) == seq![
            TokenV { name: TokenName::UString, value: v },
        ],
{
    let s = seq!['"'] + v + seq!['"'];
    assert(s.len() == v.len() + 2);
    assert(s[0] == '"');
    assert(s[s.len() - 1] == '"');
    assert(forall|k: int| 1 <= k < s.len() - 1 ==> s[k] == v[k - 1] && s[k] != '"');
    lemma_run_len_is(s, 1, s.len() - 1, |c: char| c != '"');
    assert(run_len(s, 1, |c: char| c != '"') == v.len());
    assert(crate::matcher::ustring_core(s, 0) == v.len() + 2);
    assert(!is_space_char('"'));
    assert(run_len(s, 0, |c: char| is_space_char(c)) == 0);
    assert(whitespace_core(s, 0) == 0);
    assert(crate::matcher::repeater_core(s, 0) == 0) by {
        assert(s[0] != '{');
    }
    assert(crate::matcher::digits_at(s, 0) == 0) by {
        assert(!crate::chars::is_digit_char(s[0]));
    }
    assert(crate::matcher::float_core(s, 0) == 0);
    assert(crate::matcher::integer_core(s, 0) == 0);
    assert(crate::matcher::stdout_core(s, 0) == 0);
    assert(chosen_kind(s, 0) == TokenName::UString);
    lemma_run_len_is(s, s.len() as int, s.len() as int, |c: char| is_space_char(c));
    assert(match_len(TokenName::UString, s, 0) == s.len());
    crate::lex::lemma_spec_tokens_step(s, 0);
    assert(spec_tokens(s, s.len() as int) =~= Seq::<TokenV>::empty());
    assert(packed_value(TokenName::UString, s, 0) =~= v);
    assert(spec_lex(s) =~= seq![TokenV { name: TokenName::UString, value: v }]);
}

/// Re-quoting the unpacked letter of a letter token and lexing it
/// again reproduces the token: one `Letter` token with the original
/// letter. The condition holds of every value the lexer unpacks from a
/// letter literal: a single letter.
pub proof fn law_requote_letter(c: char)
    requires
        is_alpha_char(c),
    ensures
        spec_lex(seq!['\''] + seq![c] + seq!['\'']) == seq![
            TokenV { name: TokenName::Letter, value: seq![c] },
        ],
{
    let s = seq!['\''] + seq![c] + seq!['\''];
    assert(s.len() == 3);
    assert(s[0] == '\'' && s[1] == c && s[2] == '\'');
    assert(!is_space_char('\''));
    lemma_run_len_is(s, 0, 0, |c: char| is_space_char(c));
    assert(whitespace_core(s, 0) == 0);
    assert(crate::matcher::digits_at(s, 0) == 0) by {
        assert(!crate::chars::is_digit_char(s[0]));
    }
    assert(crate::matcher::repeater_core(s, 0) == 0);
    assert(crate::matcher::float_core(s, 0) == 0);
    assert(crate::matcher::integer_core(s, 0) == 0);
    assert(crate::matcher::stdout_core(s, 0) == 0);
    assert(crate::matcher::ustring_core(s, 0) == 0);
    assert(crate::matcher::plus_core(s, 0) == 0);
    assert(crate::matcher::minus_core(s, 0) == 0);
    assert(crate::matcher::variable_core(s, 0) == 0);
    assert(crate::matcher::letter_core(s, 0) == 3);
    assert(chosen_kind(s, 0) == TokenName::Letter);
    lemma_run_len_is(s, 3, 3, |c: char| is_space_char(c));
    assert(match_len(TokenName::Letter, s, 0) == 3);
    crate::lex::lemma_spec_tokens_step(s, 0);
    assert(spec_tokens(s, 3) =~= Seq::<TokenV>::empty());
    assert(packed_value(TokenName::Letter, s, 0) =~= seq![c]);
    assert(spec_lex(s) =~= seq![TokenV { name: TokenName::Letter, value: seq![c] }]);
}

/// Iterating an operator `a + b` times is iterating it `a` times, then
/// `b` times more.
pub proof fn lemma_iter_op_add(st: ExecState, v: ValV, op: TreeV, a: nat, b: nat)
    ensures
        spec_iter_op(st, v, op, a + b) == ({
            let m = spec_iter_op(st, v, op, a);
            spec_iter_op(m.0, m.1, op, b)
        }),
    decreases a,
{
    if a > 0 {
        let stepped = spec_apply_op(st, v, op);
        lemma_iter_op_add(stepped.0, stepped.1, op, (a - 1) as nat, b);
        assert((a + b - 1) as nat == (a - 1) as nat + b);
    }
}

/// Applying a repeat block `n` times applies its wrapped operator
/// `n * m` times, where `m` is the block's own count: repeats
/// compound multiplicatively.
pub proof fn lemma_repeat_compounds(st: ExecState, v: ValV, rep: TreeV, n: nat)
    requires
        rep.kind == SyntaxTreeKind::RepeatedUnaryOp,
        rep.children.len() == 1,
        rep.token matches Option::Some(tok) && spec_parse_u32(tok.value) is Some,
    ensures
        ({
            let m = spec_parse_u32(rep.token->Some_0.value)->Some_0;
            spec_iter_op(st, v, rep, n) == spec_iter_op(st, v, rep.children[0], (n * m) as nat)
        }),
    decreases n,
{
    let tok = rep.token->Some_0;
    let m = spec_parse_u32(tok.value)->Some_0;
    assert(m >= 0) by {
        lemma_dec_value_nonneg(tok.value);
    }
    if n == 0 {
        assert(n * m == 0) by (nonlinear_arith)
            requires
                n == 0,
        ;
    } else {
        if st.err is Some {
            lemma_iter_op_err(st, v, rep, n);
            lemma_iter_op_err(st, v, rep.children[0], (n * m) as nat);
        } else {
            let stepped = spec_apply_op(st, v, rep);
            assert(stepped == spec_iter_op(st, v, rep.children[0], m as nat));
            lemma_repeat_compounds(stepped.0, stepped.1, rep, (n - 1) as nat);
            lemma_iter_op_add(st, v, rep.children[0], m as nat, ((n - 1) * m) as nat);
            assert(m + (n - 1) * m == n * m) by (nonlinear_arith);
        }
    }
}

/// A nested repeat block, applied once, applies the innermost operator
/// `n * m` times: `{n} {m} op` means `op` done `n * m` times.
pub proof fn law_nested_repeats_multiply(st: ExecState, v: ValV, outer: TreeV)
    requires
        st.err is None,
        outer.kind == SyntaxTreeKind::RepeatedUnaryOp,
        outer.children.len() == 1,
        outer.token matches Option::Some(tok) && spec_parse_u32(tok.value) is Some,
        ({
            let inner = outer.children[0];
            &&& inner.kind == SyntaxTreeKind::RepeatedUnaryOp
            &&& inner.children.len() == 1
            &&& inner.token matches Option::Some(tok2) && spec_parse_u32(tok2.value) is Some
        }),
    ensures
        ({
            let inner = outer.children[0];
            let n = spec_parse_u32(outer.token->Some_0.value)->Some_0;
            let m = spec_parse_u32(inner.token->Some_0.value)->Some_0;
            spec_apply_op(st, v, outer) == spec_iter_op(
                st,
                v,
                inner.children[0],
                (n * m) as nat,
            )
        }),
{
    let inner = outer.children[0];
    let n = spec_parse_u32(outer.token->Some_0.value)->Some_0;
    assert(n >= 0) by {
        lemma_dec_value_nonneg(outer.token->Some_0.value);
    }
    assert(spec_apply_op(st, v, outer) == spec_iter_op(st, v, inner, n as nat));
    lemma_repeat_compounds(st, v, inner, n as nat);
}

/// An increment-operator node.
pub open spec fn is_plus_op(t: TreeV) -> bool {
    &&& t.kind == SyntaxTreeKind::UnaryOp
    &&& t.token matches Option::Some(tok) && tok.name == TokenName::Plus
}

/// Reading back the decimal text of a 64-bit integer gives the
/// integer.
pub proof fn lemma_int_text_roundtrip(n: int)
    requires
        i64::MIN <= n <= i64::MAX,
    ensures
        spec_parse_i64(int_to_text(n)) == Option::Some(n),
{
    if n >= 0 {
        lemma_nat_to_text_digits(n);
        lemma_nat_text_value(n);
        let s = int_to_text(n);
        assert(s[0] != '-') by {
            assert(crate::chars::is_digit_char(s[0]));
        }
    } else {
        lemma_nat_to_text_digits(-n);
        lemma_nat_text_value(-n);
        let s = int_to_text(n);
        assert(s[0] == '-');
        assert(s.skip(1) =~= nat_to_text(-n));
    }
}

/// The end-of-line marker node.
pub open spec fn end_node() -> TreeV {
    TreeV { kind: SyntaxTreeKind::EndOfLine, children: Seq::empty(), token: Option::None }
}

/// The `k` increment-operator nodes a run of plus tokens parses to.
pub open spec fn plus_run_ops(ts: Seq<TokenV>, i: int, k: int) -> Seq<TreeV> {
    Seq::new(k as nat, |j: int| leaf(SyntaxTreeKind::UnaryOp, ts[i + j]))
}

/// Parsing `k` plus tokens, then `STDOUT`, then a semicolon extends
/// the statement by exactly those operator nodes and the end-of-line
/// marker, reports nothing, and leaves the scope alone.
pub proof fn lemma_parse_plus_chain(
    ts: Seq<TokenV>,
    i: int,
    scope: Set<Seq<char>>,
    stmt: TreeV,
    errs: Seq<SynErrV>,
    k: int,
)
    requires
        0 <= i,
        0 <= k,
        i + k + 2 <= ts.len(),
        forall|j: int| i <= j < i + k ==> (#[trigger] ts[j]).name == TokenName::Plus,
        ts[i + k].name == TokenName::Stdout,
        ts[i + k + 1].name == TokenName::Semicolon,
    ensures
        spec_parse_operators(ts, i, scope, stmt, errs) == (StmtParse {
            next: i + k + 2,
            scope,
            stmt: TreeV {
                kind: stmt.kind,
                children: stmt.children + plus_run_ops(ts, i, k) + seq![
                    leaf(SyntaxTreeKind::UnaryOp, ts[i + k]),
                    end_node(),
                ],
                token: stmt.token,
            },
            errs,
        }),
    decreases k,
{
    if k == 0 {
        let stmt1 = TreeV {
            kind: stmt.kind,
            children: stmt.children.push(leaf(SyntaxTreeKind::UnaryOp, ts[i])),
            token: stmt.token,
        };
        assert(stmt1.children.push(end_node()) =~= stmt.children + plus_run_ops(ts, i, 0) + seq![
            leaf(SyntaxTreeKind::UnaryOp, ts[i]),
            end_node(),
        ]);
        let r1 = spec_parse_operators(ts, i + 1, scope, stmt1, errs);
        assert(r1.next == i + 2 && r1.scope == scope && r1.errs == errs);
        assert(r1.stmt =~= (TreeV {
            kind: stmt.kind,
            children: stmt.children + plus_run_ops(ts, i, 0) + seq![
                leaf(SyntaxTreeKind::UnaryOp, ts[i]),
                end_node(),
            ],
            token: stmt.token,
        }));
        assert(spec_parse_operators(ts, i, scope, stmt, errs) == r1);
    } else {
        let stmt1 = TreeV {
            kind: stmt.kind,
            children: stmt.children.push(leaf(SyntaxTreeKind::UnaryOp, ts[i])),
            token: stmt.token,
        };
        lemma_parse_plus_chain(ts, i + 1, scope, stmt1, errs, k - 1);
        assert(stmt1.children + plus_run_ops(ts, i + 1, k - 1) + seq![
            leaf(SyntaxTreeKind::UnaryOp, ts[i + k]),
            end_node(),
        ] =~= stmt.children + plus_run_ops(ts, i, k) + seq![
            leaf(SyntaxTreeKind::UnaryOp, ts[i + k]),
            end_node(),
        ]);
        assert(ts[i].name == TokenName::Plus);
        assert(spec_parse_operators(ts, i, scope, stmt, errs) == spec_parse_operators(
            ts,
            i + 1,
            scope,
            stmt1,
            errs,
        ));
        assert(spec_parse_operators(ts, i, scope, stmt, errs).stmt =~= (TreeV {
            kind: stmt.kind,
            children: stmt.children + plus_run_ops(ts, i, k) + seq![
                leaf(SyntaxTreeKind::UnaryOp, ts[i + k]),
                end_node(),
            ],
            token: stmt.token,
        }));
    }
}

/// Whether `ts` is one whole statement of the shape the increment laws
/// speak of: a source literal, `k` pluses, `STDOUT`, a semicolon.
pub open spec fn plus_chain_tokens(ts: Seq<TokenV>, k: int) -> bool {
    &&& ts.len() == k + 3
    &&& 0 <= k
    &&& (ts[0].name == TokenName::Integer || ts[0].name == TokenName::Float || ts[0].name
        == TokenName::Letter || ts[0].name == TokenName::UString)
    &&& forall|j: int| 1 <= j < 1 + k ==> (#[trigger] ts[j]).name == TokenName::Plus
    &&& ts[k + 1].name == TokenName::Stdout
    &&& ts[k + 2].name == TokenName::Semicolon
}

/// Parsing a whole plus-chain statement yields exactly one statement
/// subtree — source, `k` increments, a print, the end marker — with no
/// errors and the scope unchanged.
pub proof fn lemma_parse_plus_chain_program(ts: Seq<TokenV>, scope: Set<Seq<char>>, k: int)
    requires
        plus_chain_tokens(ts, k),
    ensures
        ({
            let p = spec_parse_program(ts, 0, scope);
            &&& p.errs.len() == 0
            &&& p.scope == scope
            &&& p.stmts == seq![
                TreeV {
                    kind: SyntaxTreeKind::Statement,
                    children: seq![leaf(SyntaxTreeKind::Source, ts[0])] + plus_run_ops(ts, 1, k)
                        + seq![leaf(SyntaxTreeKind::UnaryOp, ts[k + 1]), end_node()],
                    token: Option::None,
                },
            ]
        }),
{
    let stmt1 = TreeV {
        kind: SyntaxTreeKind::Statement,
        children: seq![leaf(SyntaxTreeKind::Source, ts[0])],
        token: Option::None,
    };
    lemma_parse_plus_chain(ts, 1, scope, stmt1, Seq::empty(), k);
    let st = spec_parse_statement(ts, 0, scope);
    assert(st.next == ts.len());
    assert(st.errs.len() == 0);
    assert(stmt1.children + plus_run_ops(ts, 1, k) + seq![
        leaf(SyntaxTreeKind::UnaryOp, ts[k + 1]),
        end_node(),
    ] =~= seq![leaf(SyntaxTreeKind::Source, ts[0])] + plus_run_ops(ts, 1, k) + seq![
        leaf(SyntaxTreeKind::UnaryOp, ts[k + 1]),
        end_node(),
    ]);
    let rest = spec_parse_program(ts, ts.len() as int, st.scope);
    assert(rest.stmts =~= Seq::<TreeV>::empty());
    assert(rest.errs =~= Seq::<SynErrV>::empty());
    let p = spec_parse_program(ts, 0, scope);
    assert(p.stmts =~= seq![st.stmt]);
}

/// Folding a concatenation of operator chains folds the first, then
/// the second from where the first left off.
pub proof fn lemma_exec_ops_concat(st: ExecState, v: ValV, a: Seq<TreeV>, b: Seq<TreeV>)
    ensures
        spec_exec_ops(st, v, a + b) == ({
            let m = spec_exec_ops(st, v, a);
            spec_exec_ops(m.0, m.1, b)
        }),
    decreases a.len(),
{
    if a.len() == 0 {
        assert(a + b =~= b);
    } else {
        let stepped = spec_apply_op(st, v, a[0]);
        assert((a + b)[0] == a[0]);
        assert((a + b).subrange(1, (a + b).len() as int) =~= a.subrange(1, a.len() as int) + b);
        lemma_exec_ops_concat(stepped.0, stepped.1, a.subrange(1, a.len() as int), b);
    }
}

/// Folding a run of increment operators over an integer adds the
/// run's length, step by step, touching neither the table nor the
/// output.
pub proof fn lemma_exec_plus_run_int(st: ExecState, n: int, ops: Seq<TreeV>, k: int)
    requires
        st.err is None,
        0 <= k,
        ops.len() == k,
        forall|j: int| 0 <= j < k ==> is_plus_op(#[trigger] ops[j]),
        i64::MIN <= n,
        n + k <= i64::MAX,
    ensures
        spec_exec_ops(st, ValV::Integer(n), ops) == (st, ValV::Integer(n + k)),
    decreases k,
{
    if k > 0 {
        assert(ops[0].kind == SyntaxTreeKind::UnaryOp);
        assert(spec_shift(ValV::Integer(n), true) == Result::<ValV, crate::value::RunErrV>::Ok(
            ValV::Integer(n + 1),
        ));
        assert(spec_apply_op(st, ValV::Integer(n), ops[0]) == (st, ValV::Integer(n + 1)));
        let rest = ops.subrange(1, ops.len() as int);
        assert(forall|j: int| 0 <= j < k - 1 ==> is_plus_op(#[trigger] rest[j])) by {
            assert(forall|j: int| 0 <= j < k - 1 ==> rest[j] == ops[j + 1]);
        }
        lemma_exec_plus_run_int(st, n + 1, rest, k - 1);
    }
}

/// Shifting a letter by `a` and then by `b` shifts it by `a + b`: the
/// rotation is additive.
pub proof fn lemma_alpha_shift_add(c: char, a: int, b: int)
    requires
        is_alpha_char(c),
    ensures
        alpha_shift(alpha_shift(c, a), b) == alpha_shift(c, a + b),
{
    lemma_alpha_shift_alpha(c, a);
    let base = alpha_base(c);
    let m = (c as int - base + a) % 26;
    vstd::arithmetic::div_mod::lemma_mod_bound(c as int - base + a, 26);
    let c1 = alpha_shift(c, a);
    assert(c1 as int == base + m);
    assert(alpha_base(c1) == base);
    let q = (c as int - base + a) / 26;
    assert(c as int - base + a == 26 * q + m);
    vstd::arithmetic::div_mod::lemma_mod_multiples_vanish(-q, c as int - base + a + b, 26);
    assert(26 * (-q) + (c as int - base + a + b) == m + b);
    assert((m + b) % 26 == (c as int - base + a + b) % 26);
}

/// Shifting a letter 26 times brings it back: the alphabet wraps
/// whole.
pub proof fn lemma_alpha_shift_wraps(c: char)
    requires
        is_alpha_char(c),
    ensures
        alpha_shift(c, 26) == c,
{
    let base = alpha_base(c);
    vstd::arithmetic::div_mod::lemma_mod_multiples_vanish(1, c as int - base, 26);
    vstd::arithmetic::div_mod::lemma_small_mod((c as int - base) as nat, 26);
    assert((c as int - base + 26) % 26 == c as int - base);
}

/// Folding a run of increment operators over a letter rotates it by
/// the run's length, touching neither the table nor the output.
pub proof fn lemma_exec_plus_run_letter(st: ExecState, c: char, ops: Seq<TreeV>, k: int)
    requires
        st.err is None,
        0 <= k,
        ops.len() == k,
        forall|j: int| 0 <= j < k ==> is_plus_op(#[trigger] ops[j]),
        is_alpha_char(c),
    ensures
        spec_exec_ops(st, ValV::Letter(c), ops) == (st, ValV::Letter(alpha_shift(c, k))),
    decreases k,
{
    if k == 0 {
        vstd::arithmetic::div_mod::lemma_small_mod((c as int - alpha_base(c)) as nat, 26);
        assert(alpha_shift(c, 0) == c);
    } else {
        assert(!is_space_char(c));
        assert(char_shift(c, 1) == alpha_shift(c, 1));
        assert(spec_apply_op(st, ValV::Letter(c), ops[0]) == (
            st,
            ValV::Letter(alpha_shift(c, 1)),
        ));
        lemma_alpha_shift_alpha(c, 1);
        let rest = ops.subrange(1, ops.len() as int);
        assert(forall|j: int| 0 <= j < k - 1 ==> is_plus_op(#[trigger] rest[j])) by {
            assert(forall|j: int| 0 <= j < k - 1 ==> rest[j] == ops[j + 1]);
        }
        lemma_exec_plus_run_letter(st, alpha_shift(c, 1), rest, k - 1);
        lemma_alpha_shift_add(c, 1, k - 1);
    }
}

/// A whole plus-chain statement, parsed and executed: if the source
/// resolves to `v` and folding the `k` increments over `v` gives `vf`,
/// the program parses cleanly into one statement whose run prints
/// exactly the text of `vf` and leaves the table alone.
proof fn lemma_plus_chain_pipeline(
    ts: Seq<TokenV>,
    scope: Set<Seq<char>>,
    table: Map<Seq<char>, ValV>,
    k: int,
    v: ValV,
    vf: ValV,
)
    requires
        plus_chain_tokens(ts, k),
        spec_source_value(table, ts[0]) == Result::<ValV, crate::value::RunErrV>::Ok(v),
        spec_exec_ops(
            ExecState { table, out: Seq::empty(), err: Option::None },
            v,
            plus_run_ops(ts, 1, k),
        ) == (ExecState { table, out: Seq::empty(), err: Option::None }, vf),
    ensures
        ({
            let p = spec_parse_program(ts, 0, scope);
            &&& p.errs.len() == 0
            &&& p.scope == scope
            &&& spec_exec_program(table, p.stmts) == (ExecState {
                table,
                out: seq![spec_to_text(vf)],
                err: Option::<crate::value::RunErrV>::None,
            })
        }),
{
    lemma_parse_plus_chain_program(ts, scope, k);
    let p = spec_parse_program(ts, 0, scope);
    let stmt = p.stmts[0];
    let st0 = ExecState { table, out: Seq::empty(), err: Option::None };
    assert(stmt.children[0] == leaf(SyntaxTreeKind::Source, ts[0]));
    assert(stmt.children.len() == k + 3);
    let ops = stmt.children.subrange(1, stmt.children.len() - 1);
    assert(ops =~= plus_run_ops(ts, 1, k) + seq![leaf(SyntaxTreeKind::UnaryOp, ts[k + 1])]);
    lemma_exec_ops_concat(st0, v, plus_run_ops(ts, 1, k), seq![
        leaf(SyntaxTreeKind::UnaryOp, ts[k + 1]),
    ]);
    let after_pluses = spec_exec_ops(st0, v, plus_run_ops(ts, 1, k));
    assert(after_pluses == (st0, vf));
    let tail = seq![leaf(SyntaxTreeKind::UnaryOp, ts[k + 1])];
    let printed = spec_apply_op(st0, vf, tail[0]);
    assert(printed == (
        ExecState { table, out: Seq::empty().push(spec_to_text(vf)), err: Option::<
            crate::value::RunErrV,
        >::None },
        vf,
    ));
    assert(tail.subrange(1, 1) =~= Seq::<TreeV>::empty());
    let m2 = spec_exec_ops(st0, vf, tail);
    assert(spec_exec_ops(printed.0, printed.1, tail.subrange(1, 1)) == (printed.0, printed.1));
    assert(m2 == (printed.0, printed.1));
    assert(ops == plus_run_ops(ts, 1, k) + tail);
    assert(spec_exec_ops(st0, v, ops) == m2);
    let st1 = spec_exec_statement(table, stmt);
    assert(stmt.children[0].token == Option::Some(ts[0]));
    assert(st1 == spec_exec_ops(st0, v, ops).0);
    assert(st1.out =~= seq![spec_to_text(vf)]);
    assert(st1.table == table && st1.err is None);
    assert(p.stmts.subrange(1, 1) =~= Seq::<TreeV>::empty());
    let rest = spec_exec_program(st1.table, p.stmts.subrange(1, 1));
    assert(rest.table == st1.table && rest.out =~= Seq::<Seq<char>>::empty() && rest.err is None);
    let st = spec_exec_program(table, p.stmts);
    assert(p.stmts[0] == stmt);
    assert(st.table == rest.table && st.err == rest.err && st.out == st1.out + rest.out);
    assert(st.out =~= seq![spec_to_text(vf)]);
    assert(st =~= (ExecState {
        table,
        out: seq![spec_to_text(vf)],
        err: Option::<crate::value::RunErrV>::None,
    }));
}

/// An integer literal `n` followed by `k` increments and a print
/// outputs exactly `n + k`, in decimal, whatever the session state —
/// as long as `n + k` still fits the 64-bit integers.
pub proof fn law_integer_plus_chain(
    ts: Seq<TokenV>,
    scope: Set<Seq<char>>,
    table: Map<Seq<char>, ValV>,
    n: int,
    k: int,
)
    requires
        plus_chain_tokens(ts, k),
        ts[0].name == TokenName::Integer,
        ts[0].value == int_to_text(n),
        i64::MIN <= n <= i64::MAX,
        n + k <= i64::MAX,
    ensures
        ({
            let p = spec_parse_program(ts, 0, scope);
            &&& p.errs.len() == 0
            &&& p.scope == scope
            &&& spec_exec_program(table, p.stmts) == (ExecState {
                table,
                out: seq![int_to_text(n + k)],
                err: Option::<crate::value::RunErrV>::None,
            })
        }),
{
    lemma_int_text_roundtrip(n);
    assert(spec_source_value(table, ts[0]) == Result::<ValV, crate::value::RunErrV>::Ok(
        ValV::Integer(n),
    ));
    let st0 = ExecState { table, out: Seq::empty(), err: Option::None };
    let pluses = plus_run_ops(ts, 1, k);
    assert(forall|j: int| 0 <= j < k ==> is_plus_op(#[trigger] pluses[j])) by {
        assert(forall|j: int|
            0 <= j < k ==> #[trigger] pluses[j] == leaf(SyntaxTreeKind::UnaryOp, ts[1 + j])
                && ts[1 + j].name == TokenName::Plus);
    }
    lemma_exec_plus_run_int(st0, n, pluses, k);
    lemma_plus_chain_pipeline(ts, scope, table, k, ValV::Integer(n), ValV::Integer(n + k));
}

/// A letter literal followed by 26 increments and a print outputs the
/// original letter unchanged: the alphabet wraps whole, whatever the
/// session state.
pub proof fn law_letter_alphabet_wraps(
    ts: Seq<TokenV>,
    scope: Set<Seq<char>>,
    table: Map<Seq<char>, ValV>,
    c: char,
)
    requires
        plus_chain_tokens(ts, 26),
        ts[0].name == TokenName::Letter,
        ts[0].value == seq![c],
        is_alpha_char(c),
    ensures
        ({
            let p = spec_parse_program(ts, 0, scope);
            &&& p.errs.len() == 0
            &&& p.scope == scope
            &&& spec_exec_program(table, p.stmts) == (ExecState {
                table,
                out: seq![seq![c]],
                err: Option::<crate::value::RunErrV>::None,
            })
        }),
{
    assert(ts[0].value.len() == 1 && ts[0].value[0] == c);
    assert(spec_source_value(table, ts[0]) == Result::<ValV, crate::value::RunErrV>::Ok(
        ValV::Letter(c),
    ));
    let st0 = ExecState { table, out: Seq::empty(), err: Option::None };
    let pluses = plus_run_ops(ts, 1, 26);
    assert(forall|j: int| 0 <= j < 26 ==> is_plus_op(#[trigger] pluses[j])) by {
        assert(forall|j: int|
            0 <= j < 26 ==> #[trigger] pluses[j] == leaf(SyntaxTreeKind::UnaryOp, ts[1 + j])
                && ts[1 + j].name == TokenName::Plus);
    }
    lemma_exec_plus_run_letter(st0, c, pluses, 26);
    lemma_alpha_shift_wraps(c);
    lemma_plus_chain_pipeline(ts, scope, table, 26, ValV::Letter(c), ValV::Letter(c));
}

/// Whatever an operator chain does, the errors already found stay, in
/// place, at the front.
pub proof fn lemma_operators_errs_prefix(
    ts: Seq<TokenV>,
    i: int,
    scope: Set<Seq<char>>,
    stmt: TreeV,
    errs: Seq<SynErrV>,
)
    ensures
        ({
            let r = spec_parse_operators(ts, i, scope, stmt, errs);
            &&& errs.len() <= r.errs.len()
            &&& forall|j: int| 0 <= j < errs.len() ==> r.errs[j] == #[trigger] errs[j]
        }),
    decreases ts.len() - i,
{
    if 0 <= i < ts.len() {
        let tok = ts[i];
        let r = spec_parse_operators(ts, i, scope, stmt, errs);
        if tok.name == TokenName::Plus || tok.name == TokenName::Minus || tok.name
            == TokenName::Stdout {
            let stmt1 = TreeV {
                kind: stmt.kind,
                children: stmt.children.push(leaf(SyntaxTreeKind::UnaryOp, tok)),
                token: stmt.token,
            };
            lemma_operators_errs_prefix(ts, i + 1, scope, stmt1, errs);
        } else if tok.name == TokenName::Variable {
            if scope.contains(tok.value) {
                let errs1 = errs.push(SynErrV::AssignedVariableTwice { var_name: tok.value });
                lemma_operators_errs_prefix(ts, i + 1, scope, stmt, errs1);
                assert forall|j: int| 0 <= j < errs.len() implies r.errs[j] == #[trigger] errs[j] by {
                    assert(r.errs[j] == errs1[j]);
                }
            } else {
                let stmt1 = TreeV {
                    kind: stmt.kind,
                    children: stmt.children.push(leaf(SyntaxTreeKind::UnaryOp, tok)),
                    token: stmt.token,
                };
                lemma_operators_errs_prefix(ts, i + 1, scope.insert(tok.value), stmt1, errs);
            }
        } else if tok.name == TokenName::Repeater {
            let rep = crate::parser::spec_parse_repeater(ts, i + 1, tok);
            let j = if i < rep.next <= ts.len() {
                rep.next
            } else {
                i + 1
            };
            if rep.errs.len() == 0 {
                let stmt1 = TreeV {
                    kind: stmt.kind,
                    children: stmt.children.push(rep.node),
                    token: stmt.token,
                };
                lemma_operators_errs_prefix(ts, j, scope, stmt1, errs);
            } else {
                let errs1 = errs + rep.errs;
                lemma_operators_errs_prefix(ts, j, scope, stmt, errs1);
                assert forall|j2: int| 0 <= j2 < errs.len() implies r.errs[j2]
                    == #[trigger] errs[j2] by {
                    assert(r.errs[j2] == errs1[j2]);
                }
            }
        } else if tok.name == TokenName::Semicolon {
        } else {
            let errs1 = errs.push(
                SynErrV::UnexpectedToken {
                    unexpected: tok,
                    message: crate::parser::operator_message(),
                },
            );
            lemma_operators_errs_prefix(ts, i + 1, scope, stmt, errs1);
            assert forall|j: int| 0 <= j < errs.len() implies r.errs[j] == #[trigger] errs[j] by {
                assert(r.errs[j] == errs1[j]);
            }
        }
    }
}

/// A statement whose tokens run out before any semicolon reports an
/// incomplete line: the last error of the statement is always
/// `LineIncomplete`.
pub proof fn law_missing_semicolon(
    ts: Seq<TokenV>,
    i: int,
    scope: Set<Seq<char>>,
    stmt: TreeV,
    errs: Seq<SynErrV>,
)
    requires
        0 <= i <= ts.len(),
        forall|j: int| i <= j < ts.len() ==> (#[trigger] ts[j]).name != TokenName::Semicolon,
    ensures
        ({
            let r = spec_parse_operators(ts, i, scope, stmt, errs);
            &&& r.errs.len() >= 1
            &&& r.errs.last() == SynErrV::LineIncomplete
        }),
    decreases ts.len() - i,
{
    if i < ts.len() {
        let tok = ts[i];
        assert(tok.name != TokenName::Semicolon);
        if tok.name == TokenName::Plus || tok.name == TokenName::Minus || tok.name
            == TokenName::Stdout {
            let stmt1 = TreeV {
                kind: stmt.kind,
                children: stmt.children.push(leaf(SyntaxTreeKind::UnaryOp, tok)),
                token: stmt.token,
            };
            law_missing_semicolon(ts, i + 1, scope, stmt1, errs);
        } else if tok.name == TokenName::Variable {
            if scope.contains(tok.value) {
                let errs1 = errs.push(SynErrV::AssignedVariableTwice { var_name: tok.value });
                law_missing_semicolon(ts, i + 1, scope, stmt, errs1);
            } else {
                let stmt1 = TreeV {
                    kind: stmt.kind,
                    children: stmt.children.push(leaf(SyntaxTreeKind::UnaryOp, tok)),
                    token: stmt.token,
                };
                law_missing_semicolon(ts, i + 1, scope.insert(tok.value), stmt1, errs);
            }
        } else if tok.name == TokenName::Repeater {
            let rep = crate::parser::spec_parse_repeater(ts, i + 1, tok);
            crate::parser::lemma_repeater_next(ts, i + 1, tok);
            let j = if i < rep.next <= ts.len() {
                rep.next
            } else {
                i + 1
            };
            if rep.errs.len() == 0 {
                let stmt1 = TreeV {
                    kind: stmt.kind,
                    children: stmt.children.push(rep.node),
                    token: stmt.token,
                };
                law_missing_semicolon(ts, j, scope, stmt1, errs);
            } else {
                law_missing_semicolon(ts, j, scope, stmt, errs + rep.errs);
            }
        } else {
            let errs1 = errs.push(
                SynErrV::UnexpectedToken {
                    unexpected: tok,
                    message: crate::parser::operator_message(),
                },
            );
            law_missing_semicolon(ts, i + 1, scope, stmt, errs1);
        }
    }
}

/// An incomplete line does not block the next input: in a session, a
/// lone source literal (its semicolon missing) parses to exactly the
/// `LineIncomplete` error, and a following well-formed statement, fed
/// to the same parser state, parses cleanly.
pub proof fn law_resynchronization(
    scope: Set<Seq<char>>,
    src1: TokenV,
    src2: TokenV,
    semi: TokenV,
)
    requires
        src1.name == TokenName::Integer || src1.name == TokenName::Float || src1.name
            == TokenName::Letter || src1.name == TokenName::UString,
        src2.name == TokenName::Integer || src2.name == TokenName::Float || src2.name
            == TokenName::Letter || src2.name == TokenName::UString,
        semi.name == TokenName::Semicolon,
    ensures
        ({
            let p1 = spec_parse_program(seq![src1], 0, scope);
            let p2 = spec_parse_program(seq![src2, semi], 0, p1.scope);
            &&& p1.errs == seq![SynErrV::LineIncomplete]
            &&& p1.scope == scope
            &&& p2.errs.len() == 0
            &&& p2.stmts.len() == 1
        }),
{
    let ts1 = seq![src1];
    let st1 = spec_parse_statement(ts1, 0, scope);
    assert(st1.errs =~= seq![SynErrV::LineIncomplete]);
    assert(st1.next == 1);
    let p1 = spec_parse_program(ts1, 0, scope);
    assert(spec_parse_program(ts1, 1, scope).errs =~= Seq::<SynErrV>::empty());
    assert(p1.errs =~= seq![SynErrV::LineIncomplete]);

    let ts2 = seq![src2, semi];
    let st2 = spec_parse_statement(ts2, 0, p1.scope);
    assert(st2.errs =~= Seq::<SynErrV>::empty());
    assert(st2.next == 2);
    let p2 = spec_parse_program(ts2, 0, p1.scope);
    assert(spec_parse_program(ts2, 2, st2.scope).errs =~= Seq::<SynErrV>::empty());
    assert(p2.errs =~= Seq::<SynErrV>::empty());
    assert(p2.stmts =~= seq![st2.stmt]);
}

/// Binding a variable that is already in scope is rejected: the
/// statement reports `AssignedVariableTwice` for that name, whatever
/// else it holds.
pub proof fn law_second_binding_rejected(
    ts: Seq<TokenV>,
    i: int,
    scope: Set<Seq<char>>,
    stmt: TreeV,
    errs: Seq<SynErrV>,
)
    requires
        0 <= i < ts.len(),
        ts[i].name == TokenName::Variable,
        scope.contains(ts[i].value),
    ensures
        spec_parse_operators(ts, i, scope, stmt, errs).errs.contains(
            SynErrV::AssignedVariableTwice { var_name: ts[i].value },
        ),
{
    let e = SynErrV::AssignedVariableTwice { var_name: ts[i].value };
    let errs1 = errs.push(e);
    lemma_operators_errs_prefix(ts, i + 1, scope, stmt, errs1);
    let r = spec_parse_operators(ts, i, scope, stmt, errs);
    assert(r.errs[errs.len() as int] == errs1[errs.len() as int]);
    assert(errs1[errs.len() as int] == e);
}

/// Reading a variable that was never bound is rejected: the statement
/// reports `UndeclaredVariable` for that name as its first error.
pub proof fn law_undeclared_read_rejected(ts: Seq<TokenV>, i: int, scope: Set<Seq<char>>)
    requires
        0 <= i < ts.len(),
        ts[i].name == TokenName::Variable,
        !scope.contains(ts[i].value),
    ensures
        spec_parse_statement(ts, i, scope).errs.len() >= 1,
        spec_parse_statement(ts, i, scope).errs[0] == (SynErrV::UndeclaredVariable {
            var_name: ts[i].value,
        }),
{
    let e = SynErrV::UndeclaredVariable { var_name: ts[i].value };
    let stmt0 = TreeV {
        kind: SyntaxTreeKind::Statement,
        children: Seq::empty(),
        token: Option::None,
    };
    lemma_operators_errs_prefix(ts, i + 1, scope, stmt0, seq![e]);
    let rr = spec_parse_operators(ts, i + 1, scope, stmt0, seq![e]);
    assert(rr.errs[0] == seq![e][0]);
    assert(seq![e][0] == e);
}

/// A value bound to a name is the value read back for that name: the
/// binding operator records exactly the running value, and a later
/// source read of the same name resolves to it.
pub proof fn law_bind_then_read(st: ExecState, v: ValV, op: TreeV, name: Seq<char>)
    requires
        st.err is None,
        op.kind == SyntaxTreeKind::UnaryOp,
        op.token == Option::Some(TokenV { name: TokenName::Variable, value: name }),
    ensures
        ({
            let stepped = spec_apply_op(st, v, op);
            &&& stepped.0.table == st.table.insert(name, v)
            &&& stepped.1 == v
            &&& spec_source_value(
                stepped.0.table,
                TokenV { name: TokenName::Variable, value: name },
            ) == Result::<ValV, crate::value::RunErrV>::Ok(v)
        }),
{
}

/// The text of `k` increment operators, each followed by its
/// separating space.
pub open spec fn plus_text(k: nat) -> Seq<char>
    decreases k,
{
    if k == 0 {
        Seq::empty()
    } else {
        seq!['+', ' '] + plus_text((k - 1) as nat)
    }
}

/// The closing text of the chain statements: the print keyword and the
/// statement separator.
pub open spec fn print_tail() -> Seq<char> {
    seq!['S', 'T', 'D', 'O', 'U', 'T', ' ', ';']
}

/// The token an increment in the chain lexes to.
pub open spec fn plus_token() -> TokenV {
    TokenV { name: TokenName::Plus, value: seq!['+', ' '] }
}

/// The token the print keyword lexes to.
pub open spec fn stdout_token() -> TokenV {
    TokenV { name: TokenName::Stdout, value: seq!['S', 'T', 'D', 'O', 'U', 'T', ' '] }
}

/// The token the statement separator lexes to.
pub open spec fn semi_token() -> TokenV {
    TokenV { name: TokenName::Semicolon, value: seq![';'] }
}

/// The tokens of `k` increments.
pub open spec fn plus_token_seq(k: nat) -> Seq<TokenV> {
    Seq::new(k, |j: int| plus_token())
}

/// The length of the chain text grows two characters per increment.
pub proof fn lemma_plus_text_len(k: nat)
    ensures
        plus_text(k).len() == 2 * k,
    decreases k,
{
    if k > 0 {
        lemma_plus_text_len((k - 1) as nat);
    }
}

/// A token stream without `Unknown` tokens lexes cleanly.
pub proof fn lemma_unknown_texts_none(toks: Seq<TokenV>)
    requires
        forall|j: int| 0 <= j < toks.len() ==> (#[trigger] toks[j]).name != TokenName::Unknown,
    ensures
        unknown_texts(toks).len() == 0,
    decreases toks.len(),
{
    if toks.len() > 0 {
        lemma_unknown_texts_none(toks.drop_last());
    }
}

/// From a position where `k` increments and the print tail remain, the
/// lexer reads exactly `k` plus tokens, the print keyword, and the
/// semicolon.
pub proof fn lemma_lex_plus_region(s: Seq<char>, p: int, k: nat)
    requires
        0 <= p,
        s.len() - p == 2 * k + 8,
        s.subrange(p, s.len() as int) == plus_text(k) + print_tail(),
    ensures
        spec_tokens(s, p) == plus_token_seq(k) + seq![stdout_token(), semi_token()],
    decreases k,
{
    let suffix = plus_text(k) + print_tail();
    lemma_plus_text_len(k);
    assert(forall|j: int| 0 <= j < suffix.len() ==> s[p + j] == #[trigger] suffix[j]) by {
        assert(forall|j: int|
            0 <= j < suffix.len() ==> #[trigger] suffix[j] == s.subrange(p, s.len() as int)[j]);
    }
    if k == 0 {
        assert(s[p] == 'S' && s[p + 1] == 'T' && s[p + 2] == 'D' && s[p + 3] == 'O' && s[p + 4]
            == 'U' && s[p + 5] == 'T' && s[p + 6] == ' ' && s[p + 7] == ';');
        lemma_run_len_is(s, p, p, |c: char| is_space_char(c));
        lemma_run_len_is(s, p, p, |c: char| crate::chars::is_digit_char(c));
        assert(crate::matcher::whitespace_core(s, p) == 0);
        assert(crate::matcher::repeater_core(s, p) == 0);
        assert(crate::matcher::float_core(s, p) == 0);
        assert(crate::matcher::integer_core(s, p) == 0);
        assert(crate::matcher::stdout_core(s, p) == 6);
        assert(chosen_kind(s, p) == TokenName::Stdout);
        lemma_run_len_is(s, p + 6, p + 7, |c: char| is_space_char(c));
        assert(match_len(TokenName::Stdout, s, p) == 7);
        crate::lex::lemma_spec_tokens_step(s, p);
        assert(token_at(s, p).value =~= stdout_token().value);

        let q = p + 7;
        lemma_run_len_is(s, q, q, |c: char| is_space_char(c));
        lemma_run_len_is(s, q, q, |c: char| crate::chars::is_digit_char(c));
        assert(crate::matcher::whitespace_core(s, q) == 0);
        assert(crate::matcher::repeater_core(s, q) == 0);
        assert(crate::matcher::float_core(s, q) == 0);
        assert(crate::matcher::integer_core(s, q) == 0);
        assert(crate::matcher::stdout_core(s, q) == 0);
        assert(crate::matcher::ustring_core(s, q) == 0);
        assert(crate::matcher::plus_core(s, q) == 0);
        assert(crate::matcher::minus_core(s, q) == 0);
        assert(crate::matcher::variable_core(s, q) == 0);
        assert(crate::matcher::letter_core(s, q) == 0);
        assert(crate::matcher::semicolon_core(s, q) == 1);
        assert(chosen_kind(s, q) == TokenName::Semicolon);
        assert(match_len(TokenName::Semicolon, s, q) == 1);
        crate::lex::lemma_spec_tokens_step(s, q);
        assert(token_at(s, q).value =~= semi_token().value);
        assert(spec_tokens(s, q + 1) =~= Seq::<TokenV>::empty());
        assert(spec_tokens(s, p) =~= plus_token_seq(0) + seq![stdout_token(), semi_token()]);
    } else {
        assert(suffix[0] == '+' && suffix[1] == ' ');
        assert(s[p] == '+' && s[p + 1] == ' ');
        let tail1 = plus_text((k - 1) as nat) + print_tail();
        assert(suffix =~= seq!['+', ' '] + tail1);
        lemma_plus_text_len((k - 1) as nat);
        assert(suffix[2] == tail1[0]);
        if k == 1 {
            assert(tail1[0] == 'S');
        } else {
            assert(plus_text((k - 1) as nat)[0] == '+');
            assert(tail1[0] == '+');
        }
        assert(!is_space_char(s[p + 2]));
        lemma_run_len_is(s, p, p, |c: char| is_space_char(c));
        lemma_run_len_is(s, p, p, |c: char| crate::chars::is_digit_char(c));
        assert(crate::matcher::whitespace_core(s, p) == 0);
        assert(crate::matcher::repeater_core(s, p) == 0);
        assert(crate::matcher::float_core(s, p) == 0);
        assert(crate::matcher::integer_core(s, p) == 0);
        assert(crate::matcher::stdout_core(s, p) == 0);
        assert(crate::matcher::ustring_core(s, p) == 0);
        assert(crate::matcher::plus_core(s, p) == 1);
        assert(chosen_kind(s, p) == TokenName::Plus);
        lemma_run_len_is(s, p + 1, p + 2, |c: char| is_space_char(c));
        assert(match_len(TokenName::Plus, s, p) == 2);
        crate::lex::lemma_spec_tokens_step(s, p);
        assert(token_at(s, p).value =~= plus_token().value);
        assert(s.subrange(p + 2, s.len() as int) =~= tail1) by {
            assert(forall|j: int|
                0 <= j < tail1.len() ==> #[trigger] tail1[j] == suffix[j + 2] && suffix[j + 2]
                    == s[p + 2 + j]);
        }
        lemma_lex_plus_region(s, p + 2, (k - 1) as nat);
        assert(plus_token_seq(k) =~= seq![plus_token()] + plus_token_seq((k - 1) as nat));
        assert(spec_tokens(s, p) =~= plus_token_seq(k) + seq![stdout_token(), semi_token()]);
    }
}

/// At the head of a chain statement, the lexer reads the integer
/// literal as one token, absorbing the space after it.
pub proof fn lemma_lex_int_head(s: Seq<char>, n: int, rest: Seq<char>)
    requires
        i64::MIN <= n <= i64::MAX,
        s == int_to_text(n) + seq![' '] + rest,
        rest.len() >= 1,
        rest[0] == '+' || rest[0] == 'S',
    ensures
        spec_tokens(s, 0) == seq![TokenV { name: TokenName::Integer, value: int_to_text(n) }]
            + spec_tokens(s, int_to_text(n).len() as int + 1),
{
    let t = int_to_text(n);
    let m = if n < 0 {
        -n
    } else {
        n
    };
    lemma_nat_to_text_digits(m);
    let sg: int = if n < 0 {
        1
    } else {
        0
    };
    let d = nat_to_text(m).len() as int;
    assert(t.len() == sg + d);
    assert(forall|j: int| 0 <= j < t.len() ==> s[j] == #[trigger] t[j]);
    assert(forall|j: int| sg <= j < t.len() ==> t[j] == #[trigger] nat_to_text(m)[j - sg]);
    assert(forall|j: int|
        sg <= j < t.len() ==> crate::chars::is_digit_char(#[trigger] s[j])) by {
        assert(forall|j: int|
            sg <= j < t.len() ==> crate::chars::is_digit_char(#[trigger] nat_to_text(m)[j - sg]));
    }
    assert(s[t.len() as int] == ' ');
    assert(s[t.len() as int + 1] == rest[0]);
    assert(!is_space_char(s[0]) && s[0] != '{') by {
        if n < 0 {
            assert(t[0] == '-');
        } else {
            assert(crate::chars::is_digit_char(t[0]));
        }
    }
    lemma_run_len_is(s, 0, 0, |c: char| is_space_char(c));
    assert(crate::matcher::whitespace_core(s, 0) == 0);
    assert(crate::matcher::repeater_core(s, 0) == 0);
    lemma_run_len_is(s, sg, t.len() as int, |c: char| crate::chars::is_digit_char(c));
    assert(crate::matcher::digits_at(s, sg) == d);
    assert(s[sg + d] == ' ' && ' ' != '.');
    assert(crate::matcher::float_core(s, 0) == 0);
    assert(crate::matcher::integer_core(s, 0) == t.len());
    assert(chosen_kind(s, 0) == TokenName::Integer);
    lemma_run_len_is(s, t.len() as int, t.len() as int + 1, |c: char| is_space_char(c));
    assert(match_len(TokenName::Integer, s, 0) == t.len() + 1);
    crate::lex::lemma_spec_tokens_step(s, 0);
    assert(token_at(s, 0).value =~= t);
    assert(spec_tokens(s, 0) =~= seq![TokenV { name: TokenName::Integer, value: t }]
        + spec_tokens(s, t.len() as int + 1));
}

/// At the head of a chain statement, the lexer reads a letter literal
/// as one token, absorbing the space after it.
pub proof fn lemma_lex_letter_head(s: Seq<char>, c: char, rest: Seq<char>)
    requires
        is_alpha_char(c),
        s == seq!['\''] + seq![c] + seq!['\''] + seq![' '] + rest,
        rest.len() >= 1,
        rest[0] == '+' || rest[0] == 'S',
    ensures
        spec_tokens(s, 0) == seq![TokenV { name: TokenName::Letter, value: seq![c] }]
            + spec_tokens(s, 4),
{
    assert(s.len() == rest.len() + 4);
    assert(s[0] == '\'' && s[1] == c && s[2] == '\'' && s[3] == ' ');
    assert(s[4] == rest[0]);
    assert(!is_space_char(s[0]));
    lemma_run_len_is(s, 0, 0, |ch: char| is_space_char(ch));
    assert(crate::matcher::whitespace_core(s, 0) == 0);
    assert(crate::matcher::repeater_core(s, 0) == 0);
    lemma_run_len_is(s, 0, 0, |ch: char| crate::chars::is_digit_char(ch));
    assert(crate::matcher::digits_at(s, 0) == 0);
    assert(crate::matcher::float_core(s, 0) == 0);
    assert(crate::matcher::integer_core(s, 0) == 0);
    assert(crate::matcher::stdout_core(s, 0) == 0);
    assert(crate::matcher::ustring_core(s, 0) == 0);
    assert(crate::matcher::plus_core(s, 0) == 0);
    assert(crate::matcher::minus_core(s, 0) == 0);
    assert(crate::matcher::variable_core(s, 0) == 0);
    assert(crate::matcher::letter_core(s, 0) == 3);
    assert(chosen_kind(s, 0) == TokenName::Letter);
    lemma_run_len_is(s, 3, 4, |ch: char| is_space_char(ch));
    assert(match_len(TokenName::Letter, s, 0) == 4);
    crate::lex::lemma_spec_tokens_step(s, 0);
    assert(token_at(s, 0).value =~= seq![c]);
    assert(spec_tokens(s, 0) =~= seq![TokenV { name: TokenName::Letter, value: seq![c] }]
        + spec_tokens(s, 4));
}

/// The source text of a letter literal, 26 increments, and a print.
pub open spec fn letter_wrap_text(c: char) -> Seq<char> {
    seq!['\''] + seq![c] + seq!['\''] + seq![' '] + plus_text(26) + print_tail()
}

/// Evaluating the source text of a letter literal followed by 26
/// increments and a print outputs the original letter unchanged,
/// whatever the session state: the alphabet wraps whole, from the
/// source text to the output.
pub proof fn law_letter_alphabet_wraps_source(
    scope: Set<Seq<char>>,
    table: Map<Seq<char>, ValV>,
    c: char,
)
    requires
        is_alpha_char(c),
    ensures
        spec_eval(scope, table, letter_wrap_text(c)) == (EvalOutcome {
            scope,
            table,
            out: seq![seq![c]],
            err: Option::<EvalErrV>::None,
        }),
{
    let s = letter_wrap_text(c);
    let rest = plus_text(26) + print_tail();
    lemma_plus_text_len(26);
    assert(rest[0] == '+') by {
        assert(rest[0] == plus_text(26)[0]);
    }
    assert(s =~= seq!['\''] + seq![c] + seq!['\''] + seq![' '] + rest);
    lemma_lex_letter_head(s, c, rest);
    assert(s.subrange(4, s.len() as int) =~= rest);
    lemma_lex_plus_region(s, 4, 26);
    let letter_tok = TokenV { name: TokenName::Letter, value: seq![c] };
    let toks = seq![letter_tok] + (plus_token_seq(26) + seq![stdout_token(), semi_token()]);
    assert(spec_lex(s) == toks);
    assert(forall|j: int| 0 <= j < toks.len() ==> (#[trigger] toks[j]).name != TokenName::Unknown)
        by {
        assert(forall|j: int|
            1 <= j < 27 ==> #[trigger] toks[j] == (plus_token_seq(26) + seq![
                stdout_token(),
                semi_token(),
            ])[j - 1]);
    }
    lemma_unknown_texts_none(toks);
    assert(plus_chain_tokens(toks, 26)) by {
        assert(forall|j: int| 1 <= j < 27 ==> (#[trigger] toks[j]).name == TokenName::Plus) by {
            assert(forall|j: int| 1 <= j < 27 ==> #[trigger] toks[j] == plus_token_seq(26)[j - 1]);
        }
        assert(toks[27] == stdout_token());
        assert(toks[28] == semi_token());
    }
    law_letter_alphabet_wraps(toks, scope, table, c);
    assert(spec_eval(scope, table, s) =~= (EvalOutcome {
        scope,
        table,
        out: seq![seq![c]],
        err: Option::<EvalErrV>::None,
    }));
}

/// The source text of an integer literal, `k` increments, and a print:
/// one whole statement of the chain shape.
pub open spec fn int_chain_text(n: int, k: nat) -> Seq<char> {
    int_to_text(n) + seq![' '] + plus_text(k) + print_tail()
}

/// Evaluating the source text of an integer literal `n` followed by
/// `k` increments and a print outputs exactly `n + k`, in decimal, and
/// leaves the session state alone — as long as `n + k` still fits the
/// 64-bit integers.
pub proof fn law_integer_plus_chain_source(
    scope: Set<Seq<char>>,
    table: Map<Seq<char>, ValV>,
    n: int,
    k: nat,
)
    requires
        i64::MIN <= n <= i64::MAX,
        n + k <= i64::MAX,
    ensures
        spec_eval(scope, table, int_chain_text(n, k)) == (EvalOutcome {
            scope,
            table,
            out: seq![int_to_text(n + k)],
            err: Option::<EvalErrV>::None,
        }),
{
    let s = int_chain_text(n, k);
    let t = int_to_text(n);
    let rest = plus_text(k) + print_tail();
    lemma_plus_text_len(k);
    assert(rest[0] == '+' || rest[0] == 'S') by {
        if k == 0 {
            assert(rest[0] == print_tail()[0]);
        } else {
            assert(rest[0] == plus_text(k)[0]);
        }
    }
    assert(s =~= t + seq![' '] + rest);
    lemma_lex_int_head(s, n, rest);
    let p = t.len() as int + 1;
    assert(s.subrange(p, s.len() as int) =~= rest);
    lemma_lex_plus_region(s, p, k);
    let int_tok = TokenV { name: TokenName::Integer, value: t };
    let toks = seq![int_tok] + (plus_token_seq(k) + seq![stdout_token(), semi_token()]);
    assert(spec_lex(s) == toks);
    assert(forall|j: int| 0 <= j < toks.len() ==> (#[trigger] toks[j]).name != TokenName::Unknown)
        by {
        assert(forall|j: int|
            1 <= j < k + 1 ==> #[trigger] toks[j] == (plus_token_seq(k) + seq![
                stdout_token(),
                semi_token(),
            ])[j - 1]);
    }
    lemma_unknown_texts_none(toks);
    assert(plus_chain_tokens(toks, k as int)) by {
        assert(forall|j: int|
            1 <= j < 1 + k ==> (#[trigger] toks[j]).name == TokenName::Plus) by {
            assert(forall|j: int|
                1 <= j < 1 + k ==> #[trigger] toks[j] == plus_token_seq(k)[j - 1]);
        }
        assert(toks[k as int + 1] == stdout_token());
        assert(toks[k as int + 2] == semi_token());
    }
    law_integer_plus_chain(toks, scope, table, n, k as int);
    let p2 = spec_parse_program(toks, 0, scope);
    let st = spec_exec_program(table, p2.stmts);
    assert(spec_eval(scope, table, s) =~= (EvalOutcome {
        scope,
        table,
        out: seq![int_to_text(n + k)],
        err: Option::<EvalErrV>::None,
    }));
}

} // verus!
